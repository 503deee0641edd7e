//! The library snapshot read by the interface: series grouping seasons
//! grouping episodes, plus the season-configuration dialog's state and the
//! override reconciliation it triggers.

use vstd::prelude::*;
use crate::library::{
    in_range, renumber, season_items, season_key, AnimeSeason, AnimeSeasonItem, Library,
};
use crate::scrobbler::{BangumiEpisodeStatus, BangumiEpisodeType};

verus! {

/// One episode as the interface shows it, with its watch status.
pub struct AppAnimeEpisode {
    /// The release identity behind the episode.
    pub episode_hash: String,
    /// The display episode number.
    pub disp_episode_num: i32,
    /// The canonical display index, once status arrived.
    pub bangumi_sort: String,
    /// The air date, once status arrived.
    pub bangumi_airdate: String,
    /// The episode's name, once status arrived.
    pub bangumi_name: String,
    /// The localized name, once status arrived.
    pub bangumi_name_cn: String,
    /// The kind of episode.
    pub bangumi_ep_type: BangumiEpisodeType,
    /// The watcher's status.
    pub bangumi_status: BangumiEpisodeStatus,
}

impl Clone for AppAnimeEpisode {
    /// An exact copy of the episode.
    fn clone(&self) -> (r: Self)
        ensures
            r == *self,
    {
        AppAnimeEpisode {
            episode_hash: self.episode_hash.clone(),
            disp_episode_num: self.disp_episode_num,
            bangumi_sort: self.bangumi_sort.clone(),
            bangumi_airdate: self.bangumi_airdate.clone(),
            bangumi_name: self.bangumi_name.clone(),
            bangumi_name_cn: self.bangumi_name_cn.clone(),
            bangumi_ep_type: self.bangumi_ep_type,
            bangumi_status: self.bangumi_status,
        }
    }
}

/// One season as the interface shows it.
#[verifier::ext_equal]
pub struct AppAnimeSeason {
    /// The feed-scoped subject (key, first half).
    pub mikan_subject_id: i32,
    /// The feed-scoped release group (key, second half).
    pub mikan_subgroup_id: i32,
    /// The canonical subject behind the season.
    pub bangumi_subject_id: i32,
    /// The season name shown.
    pub disp_season_name: String,
    /// The season number shown.
    pub disp_season_num: i32,
    /// The season's thumbnail.
    pub disp_thumbnail_url: String,
    /// The season number the catalogs gave, before any override.
    pub default_season_num: i32,
    /// A user's season-number override, or `-1`.
    pub conf_season_num: i32,
    /// The configured episode offset.
    pub conf_tmdb_episode_offset: i32,
    /// The configured canonical-episode offset.
    pub conf_bangumi_episode_offset: i32,
    /// The season's episodes.
    pub episodes: Vec<AppAnimeEpisode>,
}

/// One series as the interface shows it: its seasons under one name.
#[verifier::ext_equal]
pub struct AppAnimeSeries {
    /// The series name shown.
    pub disp_series_name: String,
    /// The seasons grouped under it.
    pub seasons: Vec<AppAnimeSeason>,
}

/// The interface's handle on the library snapshot.
pub struct LibraryApp {
    /// The snapshot: series grouping seasons grouping episodes.
    pub library: Vec<AppAnimeSeries>,
}

impl LibraryApp {
    /// An empty snapshot.
    pub fn new() -> (r: LibraryApp)
        ensures
            r.library@ =~= Seq::<AppAnimeSeries>::empty(),
    {
        LibraryApp { library: Vec::new() }
    }
}

/// How a snapshot season is built from a stored season: display fields
/// carried over, the default season number preferring the secondary catalog,
/// and no episodes yet.
pub open spec fn app_season_matches(r: AppAnimeSeason, sea: AnimeSeason) -> bool {
    &&& app_season_fields(r, sea)
    &&& r.episodes@.len() == 0
}

/// The snapshot season a stored season starts as, without episodes.
pub fn app_season_of(sea: &AnimeSeason) -> (r: AppAnimeSeason)
    ensures
        app_season_matches(r, *sea),
{
    AppAnimeSeason {
        mikan_subject_id: sea.mikan_subject_id,
        mikan_subgroup_id: sea.mikan_subgroup_id,
        bangumi_subject_id: sea.bangumi_subject_id,
        disp_season_name: sea.disp_season_name.clone(),
        disp_season_num: sea.disp_season_num,
        disp_thumbnail_url: sea.mikan_subject_image.clone(),
        default_season_num: if sea.tmdb_season_num != -1 {
            sea.tmdb_season_num
        } else {
            sea.bangumi_season_num
        },
        conf_season_num: sea.conf_season_num,
        conf_tmdb_episode_offset: sea.conf_tmdb_episode_offset,
        conf_bangumi_episode_offset: sea.conf_bangumi_episode_offset,
        episodes: Vec::new(),
    }
}

/// How a snapshot episode is built from a stored item: the identity and
/// display number carried over, the status fields still empty.
pub open spec fn app_episode_matches(r: AppAnimeEpisode, it: AnimeSeasonItem) -> bool {
    &&& r.episode_hash == it.mikan_item_uuid
    &&& r.disp_episode_num == it.disp_episode_num
    &&& r.bangumi_sort@.len() == 0
    &&& r.bangumi_airdate@.len() == 0
    &&& r.bangumi_name@.len() == 0
    &&& r.bangumi_name_cn@.len() == 0
    &&& r.bangumi_ep_type == BangumiEpisodeType::MainStory
    &&& r.bangumi_status == BangumiEpisodeStatus::NotCollected
}

/// The snapshot episode a stored item starts as, without status.
pub fn app_episode_of(it: &AnimeSeasonItem) -> (r: AppAnimeEpisode)
    ensures
        app_episode_matches(r, *it),
{
    AppAnimeEpisode {
        episode_hash: it.mikan_item_uuid.clone(),
        disp_episode_num: it.disp_episode_num,
        bangumi_sort: String::new(),
        bangumi_airdate: String::new(),
        bangumi_name: String::new(),
        bangumi_name_cn: String::new(),
        bangumi_ep_type: BangumiEpisodeType::MainStory,
        bangumi_status: BangumiEpisodeStatus::NotCollected,
    }
}

/// What the season-configuration dialog hands back: the season's identity
/// and the override values chosen.
#[derive(Clone, Copy, PartialEq, Eq, Structural, Debug)]
pub struct SeasonConf {
    /// The season's feed-subject half.
    pub subject_id: i32,
    /// The season's feed-subgroup half.
    pub subgroup_id: i32,
    /// The season number the catalogs gave.
    pub default_disp_season: i32,
    /// The season number chosen.
    pub conf_season: i32,
    /// Whether the season number was overridden by hand.
    pub conf_season_changed: bool,
    /// The lowest raw episode number shown.
    pub ep_num_min: i32,
    /// The highest raw episode number shown.
    pub ep_num_max: i32,
    /// The episode offset chosen.
    pub conf_tmdb_ep_offset: i32,
    /// The canonical-episode offset chosen.
    pub conf_bangumi_ep_offset: i32,
}

/// The season-configuration dialog's state.
pub struct SeasonConfDialogWindow {
    /// Whether the dialog is shown.
    pub open: bool,
    /// Whether this window asked to be shown.
    pub open_my: bool,
    /// Whether the fields were filled from the snapshot.
    pub inited: bool,
    /// The season's feed-subject half, or `-1`.
    pub subject_id: i32,
    /// The season's feed-subgroup half, or `-1`.
    pub subgroup_id: i32,
    /// The season number the catalogs gave, or `-1`.
    pub default_disp_season: i32,
    /// The season number chosen, or `-1`.
    pub conf_season: i32,
    /// Whether the season number was overridden by hand.
    pub conf_season_changed: bool,
    /// The lowest raw episode number shown, or `-1`.
    pub ep_num_min: i32,
    /// The highest raw episode number shown, or `-1`.
    pub ep_num_max: i32,
    /// The episode offset chosen.
    pub conf_ep_offset: i32,
}

impl SeasonConfDialogWindow {
    /// A closed dialog with nothing selected.
    pub fn new() -> (r: Self)
        ensures
            !r.open,
            !r.open_my,
            !r.inited,
            r.subject_id == -1,
            r.subgroup_id == -1,
            r.default_disp_season == -1,
            r.conf_season == -1,
            !r.conf_season_changed,
            r.ep_num_min == -1,
            r.ep_num_max == -1,
            r.conf_ep_offset == 0,
    {
        SeasonConfDialogWindow {
            open: false,
            open_my: false,
            inited: false,
            subject_id: -1,
            subgroup_id: -1,
            default_disp_season: -1,
            conf_season: -1,
            conf_season_changed: false,
            ep_num_min: -1,
            ep_num_max: -1,
            conf_ep_offset: 0,
        }
    }
}

/// A season with a user's overrides written into it: the season-number
/// override stored directly (bypassing the catalogs' cascade), the display
/// number set to the chosen one, and both offsets stored.
pub open spec fn with_override(s: AnimeSeason, conf: SeasonConf) -> AnimeSeason {
    AnimeSeason {
        conf_season_num: if conf.conf_season_changed {
            conf.conf_season
        } else {
            -1i32
        },
        disp_season_num: conf.conf_season,
        conf_tmdb_episode_offset: conf.conf_tmdb_ep_offset,
        conf_bangumi_episode_offset: conf.conf_bangumi_ep_offset,
        ..s
    }
}

/// The seasons with the override written into every season of its key.
pub open spec fn apply_override(s: Seq<AnimeSeason>, conf: SeasonConf) -> Seq<AnimeSeason> {
    s.map_values(
        |x: AnimeSeason|
            if season_key(x, conf.subject_id as int, conf.subgroup_id as int) {
                with_override(x, conf)
            } else {
                x
            },
    )
}

impl Library {
    /// Applies a user's season overrides: the season-number override is
    /// stored directly, both offsets are written, and every item of the
    /// season has its display number recomputed from the new episode offset
    /// at once — never partially.
    pub fn apply_season_conf(&mut self, conf: &SeasonConf)
        requires
            in_range(conf.conf_tmdb_ep_offset as int),
            crate::library::items_in_range(old(self).items@),
        ensures
            final(self).seasons@ == apply_override(old(self).seasons@, *conf),
            final(self).items@ == renumber(
                old(self).items@,
                conf.subject_id as int,
                conf.subgroup_id as int,
                conf.conf_tmdb_ep_offset as int,
            ),
    {
        let ghost sall = self.seasons@;
        let ghost starget = apply_override(sall, *conf);
        let mut i: usize = 0;
        while i < self.seasons.len()
            invariant
                i <= sall.len(),
                self.seasons@.len() == sall.len(),
                starget == apply_override(sall, *conf),
                forall|k: int| 0 <= k < i ==> self.seasons@[k] == starget[k],
                forall|k: int| i <= k < sall.len() ==> self.seasons@[k] == sall[k],
                self.items@ == old(self).items@,
            decreases sall.len() - i,
        {
            let sea = &self.seasons[i];
            if sea.mikan_subject_id == conf.subject_id && sea.mikan_subgroup_id == conf.subgroup_id {
                let mut updated = self.seasons[i].clone();
                updated.conf_season_num = if conf.conf_season_changed {
                    conf.conf_season
                } else {
                    -1
                };
                updated.disp_season_num = conf.conf_season;
                updated.conf_tmdb_episode_offset = conf.conf_tmdb_ep_offset;
                updated.conf_bangumi_episode_offset = conf.conf_bangumi_ep_offset;
                self.seasons.set(i, updated);
            }
            i = i + 1;
        }
        proof {
            assert(self.seasons@ =~= starget);
        }

        let ghost base = self.items@;
        let ghost rtarget = renumber(
            base,
            conf.subject_id as int,
            conf.subgroup_id as int,
            conf.conf_tmdb_ep_offset as int,
        );
        let mut j: usize = 0;
        while j < self.items.len()
            invariant
                j <= base.len(),
                self.items@.len() == base.len(),
                crate::library::items_in_range(base),
                in_range(conf.conf_tmdb_ep_offset as int),
                rtarget == renumber(
                    base,
                    conf.subject_id as int,
                    conf.subgroup_id as int,
                    conf.conf_tmdb_ep_offset as int,
                ),
                forall|k: int| 0 <= k < j ==> self.items@[k] == rtarget[k],
                forall|k: int| j <= k < base.len() ==> self.items@[k] == base[k],
                self.seasons@ == starget,
            decreases base.len() - j,
        {
            let it = &self.items[j];
            if it.mikan_subject_id == conf.subject_id && it.mikan_subgroup_id == conf.subgroup_id {
                proof {
                    assert(in_range(base[j as int].mikan_parsed_episode_num as int));
                }
                let mut updated = self.items[j].clone();
                updated.disp_episode_num = updated.mikan_parsed_episode_num
                    + conf.conf_tmdb_ep_offset;
                self.items.set(j, updated);
            }
            j = j + 1;
        }
        proof {
            assert(self.items@ =~= rtarget);
        }
    }
}

/// Order on names: code point by code point, shorter prefixes first.
pub open spec fn lex_leq(a: Seq<char>, b: Seq<char>) -> bool
    decreases a.len(),
{
    if a.len() == 0 {
        true
    } else if b.len() == 0 {
        false
    } else if a[0] != b[0] {
        a[0] < b[0]
    } else {
        lex_leq(a.skip(1), b.skip(1))
    }
}

/// Whether `a` orders at or before `b`.
fn lex_leq_exec(a: &str, b: &str) -> (r: bool)
    ensures
        r == lex_leq(a@, b@),
{
    let av = crate::strutil::chars_of(a);
    let bv = crate::strutil::chars_of(b);
    let mut i: usize = 0;
    proof {
        assert(av@.skip(0) =~= av@);
        assert(bv@.skip(0) =~= bv@);
    }
    loop
        invariant
            i <= av@.len(),
            i <= bv@.len(),
            av@ == a@,
            bv@ == b@,
            lex_leq(a@, b@) == lex_leq(av@.skip(i as int), bv@.skip(i as int)),
        decreases av@.len() - i,
    {
        proof {
            let ta = av@.skip(i as int);
            let tb = bv@.skip(i as int);
            if i < av@.len() {
                assert(ta[0] == av@[i as int]);
                assert(ta.skip(1) =~= av@.skip(i as int + 1));
            }
            if i < bv@.len() {
                assert(tb[0] == bv@[i as int]);
                assert(tb.skip(1) =~= bv@.skip(i as int + 1));
            }
        }
        if i >= av.len() {
            proof {
                assert(av@.skip(i as int).len() == 0);
            }
            return true;
        }
        if i >= bv.len() {
            proof {
                assert(bv@.skip(i as int).len() == 0);
            }
            return false;
        }
        if av[i] != bv[i] {
            return av[i] < bv[i];
        }
        i = i + 1;
    }
}

/// Episodes in non-decreasing display-number order.
pub open spec fn episodes_sorted(eps: Seq<AppAnimeEpisode>) -> bool {
    forall|m: int, n: int|
        0 <= m < n < eps.len() ==> (#[trigger] eps[m]).disp_episode_num <= (
        #[trigger] eps[n]).disp_episode_num
}

/// Seasons in non-decreasing display-number order.
pub open spec fn seasons_sorted(seasons: Seq<AppAnimeSeason>) -> bool {
    forall|m: int, n: int|
        0 <= m < n < seasons.len() ==> (#[trigger] seasons[m]).disp_season_num <= (
        #[trigger] seasons[n]).disp_season_num
}

/// Series in name order.
pub open spec fn series_sorted(series: Seq<AppAnimeSeries>) -> bool {
    forall|m: int, n: int|
        0 <= m < n < series.len() ==> lex_leq(
            (#[trigger] series[m]).disp_series_name@,
            (#[trigger] series[n]).disp_series_name@,
        )
}

/// Every element of `r` is an element of `s`.
pub open spec fn episodes_drawn_from(r: Seq<AppAnimeEpisode>, s: Seq<AppAnimeEpisode>) -> bool {
    forall|j: int| 0 <= j < r.len() ==> s.contains(#[trigger] r[j])
}

/// Inserting an episode at the first position whose display number exceeds
/// it keeps the order and draws from the same source.
#[verifier::spinoff_prover]
proof fn lemma_insert_episode(
    before: Seq<AppAnimeEpisode>,
    e: AppAnimeEpisode,
    pos: int,
    src: Seq<AppAnimeEpisode>,
)
    requires
        episodes_sorted(before),
        episodes_drawn_from(before, src),
        src.contains(e),
        0 <= pos <= before.len(),
        forall|m: int| 0 <= m < pos ==> (#[trigger] before[m]).disp_episode_num
            <= e.disp_episode_num,
        pos < before.len() ==> e.disp_episode_num < before[pos].disp_episode_num,
    ensures
        episodes_sorted(before.insert(pos, e)),
        episodes_drawn_from(before.insert(pos, e), src),
        before.insert(pos, e).len() == before.len() + 1,
{
    let new = before.insert(pos, e);
    assert(new =~= before.take(pos) + seq![e] + before.skip(pos));
    assert(forall|k: int| 0 <= k < pos ==> #[trigger] new[k] == before[k]);
    assert(new[pos] == e);
    assert(forall|k: int| pos < k < new.len() ==> #[trigger] new[k] == before[k - 1]);
    assert forall|m: int, n: int| 0 <= m < n < new.len() implies (
    #[trigger] new[m]).disp_episode_num <= (#[trigger] new[n]).disp_episode_num by {}
    assert forall|j: int| 0 <= j < new.len() implies src.contains(#[trigger] new[j]) by {}
}

/// Stable-inserts every episode into display-number order.
fn sort_episodes(eps: Vec<AppAnimeEpisode>) -> (r: Vec<AppAnimeEpisode>)
    ensures
        r@.len() == eps@.len(),
        episodes_sorted(r@),
        episodes_drawn_from(r@, eps@),
{
    let mut out: Vec<AppAnimeEpisode> = Vec::new();
    let mut i: usize = 0;
    while i < eps.len()
        invariant
            i <= eps@.len(),
            out@.len() == i,
            episodes_sorted(out@),
            episodes_drawn_from(out@, eps@),
        decreases eps.len() - i,
    {
        let e = eps[i].clone();
        let mut pos: usize = 0;
        while pos < out.len() && out[pos].disp_episode_num <= e.disp_episode_num
            invariant
                pos <= out@.len(),
                e == eps@[i as int],
                i < eps@.len(),
                forall|m: int|
                    0 <= m < pos ==> (#[trigger] out@[m]).disp_episode_num <= e.disp_episode_num,
            decreases out.len() - pos,
        {
            pos = pos + 1;
        }
        proof {
            assert(eps@.contains(eps@[i as int]));
            lemma_insert_episode(out@, e, pos as int, eps@);
        }
        out.insert(pos, e);
        i = i + 1;
    }
    out
}

/// Stable-inserts every season into display-number order, keeping exactly
/// the given season values.
fn sort_seasons(input: Vec<AppAnimeSeason>) -> (r: Vec<AppAnimeSeason>)
    ensures
        r@.len() == input@.len(),
        seasons_sorted(r@),
        forall|j: int| 0 <= j < r@.len() ==> input@.contains(#[trigger] r@[j]),
{
    let ghost orig = input@;
    let mut rest = input;
    let mut out: Vec<AppAnimeSeason> = Vec::new();
    proof {
        assert forall|j: int| 0 <= j < rest@.len() implies orig.contains(#[trigger] rest@[j]) by {
            assert(rest@[j] == orig[j]);
            assert(orig.contains(orig[j]));
        }
    }
    while rest.len() > 0
        invariant
            out@.len() + rest@.len() == orig.len(),
            seasons_sorted(out@),
            forall|j: int| 0 <= j < out@.len() ==> orig.contains(#[trigger] out@[j]),
            forall|j: int| 0 <= j < rest@.len() ==> orig.contains(#[trigger] rest@[j]),
        decreases rest.len(),
    {
        let ghost rpre = rest@;
        let e = rest.remove(0);
        proof {
            assert(e == rpre[0]);
            assert(rest@ =~= rpre.skip(1));
        }
        let mut pos: usize = 0;
        while pos < out.len() && out[pos].disp_season_num <= e.disp_season_num
            invariant
                pos <= out@.len(),
                forall|m: int|
                    0 <= m < pos ==> (#[trigger] out@[m]).disp_season_num <= e.disp_season_num,
            decreases out.len() - pos,
        {
            pos = pos + 1;
        }
        let ghost before = out@;
        let ghost ev = e;
        proof {
            assert(orig.contains(rpre[0]));
            lemma_insert_season(before, ev, pos as int, orig);
            assert forall|j: int| 0 <= j < rest@.len() implies orig.contains(
                #[trigger] rest@[j],
            ) by {
                assert(rest@[j] == rpre[j + 1]);
            }
        }
        out.insert(pos, e);
    }
    out
}

/// Inserting a season at the first position whose display number exceeds it
/// keeps the order and draws from the same source.
#[verifier::spinoff_prover]
proof fn lemma_insert_season(
    before: Seq<AppAnimeSeason>,
    e: AppAnimeSeason,
    pos: int,
    src: Seq<AppAnimeSeason>,
)
    requires
        seasons_sorted(before),
        forall|j: int| 0 <= j < before.len() ==> src.contains(#[trigger] before[j]),
        src.contains(e),
        0 <= pos <= before.len(),
        forall|m: int| 0 <= m < pos ==> (#[trigger] before[m]).disp_season_num
            <= e.disp_season_num,
        pos < before.len() ==> e.disp_season_num < before[pos].disp_season_num,
    ensures
        seasons_sorted(before.insert(pos, e)),
        forall|j: int|
            0 <= j < before.insert(pos, e).len() ==> src.contains(
                #[trigger] before.insert(pos, e)[j],
            ),
        before.insert(pos, e).len() == before.len() + 1,
{
    let new = before.insert(pos, e);
    assert(new =~= before.take(pos) + seq![e] + before.skip(pos));
    assert(forall|k: int| 0 <= k < pos ==> #[trigger] new[k] == before[k]);
    assert(new[pos] == e);
    assert(forall|k: int| pos < k < new.len() ==> #[trigger] new[k] == before[k - 1]);
    assert forall|m: int, n: int| 0 <= m < n < new.len() implies (
    #[trigger] new[m]).disp_season_num <= (#[trigger] new[n]).disp_season_num by {}
    assert forall|j: int| 0 <= j < new.len() implies src.contains(#[trigger] new[j]) by {}
}

/// The order is total: of two names, one orders at or before the other.
proof fn lemma_lex_total(a: Seq<char>, b: Seq<char>)
    ensures
        lex_leq(a, b) || lex_leq(b, a),
    decreases a.len(),
{
    if a.len() > 0 && b.len() > 0 && a[0] == b[0] {
        lemma_lex_total(a.skip(1), b.skip(1));
    }
}

/// How many seasons a snapshot holds, over all series.
pub open spec fn total_seasons(v: Seq<AppAnimeSeries>) -> int
    decreases v.len(),
{
    if v.len() == 0 {
        0
    } else {
        v[0].seasons@.len() + total_seasons(v.skip(1))
    }
}

/// The season count distributes over concatenation.
proof fn lemma_total_concat(a: Seq<AppAnimeSeries>, b: Seq<AppAnimeSeries>)
    ensures
        total_seasons(a + b) == total_seasons(a) + total_seasons(b),
    decreases a.len(),
{
    if a.len() == 0 {
        assert(a + b =~= b);
    } else {
        assert((a + b).skip(1) =~= a.skip(1) + b);
        assert((a + b)[0] == a[0]);
        lemma_total_concat(a.skip(1), b);
    }
}

/// The season count of one series alone.
proof fn lemma_total_single(e: AppAnimeSeries)
    ensures
        total_seasons(seq![e]) == e.seasons@.len(),
{
    assert(seq![e].skip(1) =~= Seq::<AppAnimeSeries>::empty());
    assert(total_seasons(Seq::<AppAnimeSeries>::empty()) == 0);
    assert(seq![e][0] == e);
}

/// The season count after taking one series out at `f`.
proof fn lemma_total_remove(s: Seq<AppAnimeSeries>, f: int)
    requires
        0 <= f < s.len(),
    ensures
        total_seasons(s.remove(f)) == total_seasons(s) - s[f].seasons@.len(),
{
    assert(s =~= s.take(f) + seq![s[f]] + s.skip(f + 1));
    assert(s.remove(f) =~= s.take(f) + s.skip(f + 1));
    lemma_total_concat(s.take(f) + seq![s[f]], s.skip(f + 1));
    lemma_total_concat(s.take(f), seq![s[f]]);
    lemma_total_concat(s.take(f), s.skip(f + 1));
    lemma_total_single(s[f]);
}

/// The season count after putting one series in at `pos`.
proof fn lemma_total_insert(s: Seq<AppAnimeSeries>, pos: int, e: AppAnimeSeries)
    requires
        0 <= pos <= s.len(),
    ensures
        total_seasons(s.insert(pos, e)) == total_seasons(s) + e.seasons@.len(),
{
    assert(s =~= s.take(pos) + s.skip(pos));
    assert(s.insert(pos, e) =~= s.take(pos) + seq![e] + s.skip(pos));
    lemma_total_concat(s.take(pos) + seq![e], s.skip(pos));
    lemma_total_concat(s.take(pos), seq![e]);
    lemma_total_concat(s.take(pos), s.skip(pos));
    lemma_total_single(e);
}

/// The season count after appending one series.
proof fn lemma_total_push(s: Seq<AppAnimeSeries>, e: AppAnimeSeries)
    ensures
        total_seasons(s.push(e)) == total_seasons(s) + e.seasons@.len(),
{
    assert(s.push(e) =~= s + seq![e]);
    lemma_total_concat(s, seq![e]);
    lemma_total_single(e);
}

/// The display fields a snapshot season carries over from its stored
/// season: keys, names, numbers, thumbnail and configuration.
pub open spec fn app_season_fields(r: AppAnimeSeason, sea: AnimeSeason) -> bool {
    &&& r.mikan_subject_id == sea.mikan_subject_id
    &&& r.mikan_subgroup_id == sea.mikan_subgroup_id
    &&& r.bangumi_subject_id == sea.bangumi_subject_id
    &&& r.disp_season_name == sea.disp_season_name
    &&& r.disp_season_num == sea.disp_season_num
    &&& r.disp_thumbnail_url == sea.mikan_subject_image
    &&& r.default_season_num == (if sea.tmdb_season_num != -1 {
        sea.tmdb_season_num
    } else {
        sea.bangumi_season_num
    })
    &&& r.conf_season_num == sea.conf_season_num
    &&& r.conf_tmdb_episode_offset == sea.conf_tmdb_episode_offset
    &&& r.conf_bangumi_episode_offset == sea.conf_bangumi_episode_offset
}

/// The episode stands for one of the listed items.
pub open spec fn episode_from_one_of(ep: AppAnimeEpisode, its: Seq<AnimeSeasonItem>) -> bool {
    exists|t: int| 0 <= t < its.len() && app_episode_matches(ep, #[trigger] its[t])
}

/// The snapshot season's episodes truthfully stand for its season's items:
/// one episode per item, each one built from an item of the season.
pub open spec fn snapshot_episodes_from(aps: AppAnimeSeason, items: Seq<AnimeSeasonItem>) -> bool {
    &&& aps.episodes@.len() == season_items(
        items,
        aps.mikan_subject_id as int,
        aps.mikan_subgroup_id as int,
    ).len()
    &&& forall|e: int|
        0 <= e < aps.episodes@.len() ==> episode_from_one_of(
            #[trigger] aps.episodes@[e],
            season_items(items, aps.mikan_subject_id as int, aps.mikan_subgroup_id as int),
        )
}

/// A sound snapshot season: its fields come from one stored season, its
/// episodes are its season's items, in display-number order.
pub open spec fn snapshot_season_ok(
    aps: AppAnimeSeason,
    seasons: Seq<AnimeSeason>,
    items: Seq<AnimeSeasonItem>,
) -> bool {
    &&& episodes_sorted(aps.episodes@)
    &&& (exists|k: int| 0 <= k < seasons.len() && app_season_fields(aps, #[trigger] seasons[k]))
    &&& snapshot_episodes_from(aps, items)
}

/// Builds the snapshot the interface reads: every stored season becomes a
/// snapshot season carrying its items as episodes in display-number order;
/// seasons group under their series name, ordered by season number inside a
/// series and by series name across series.  Every stored season stands in
/// the snapshot exactly once, and every snapshot season is sound: its
/// fields come from a stored season and its episodes from that season's
/// items.
#[verifier::rlimit(60)]
pub fn build_series_tree(lib: &Library) -> (r: Vec<AppAnimeSeries>)
    ensures
        total_seasons(r@) == lib.seasons@.len(),
        series_sorted(r@),
        forall|si: int| 0 <= si < r@.len() ==> seasons_sorted((#[trigger] r@[si]).seasons@),
        forall|si: int, sj: int|
            0 <= si < r@.len() && 0 <= sj < r@[si].seasons@.len() ==> snapshot_season_ok(
                #[trigger] r@[si].seasons@[sj],
                lib.seasons@,
                lib.items@,
            ),
{
    let stored = lib.read_seasons();
    let mut groups: Vec<AppAnimeSeries> = Vec::new();
    let mut i: usize = 0;
    while i < stored.len()
        invariant
            i <= stored@.len(),
            stored@ == lib.seasons@,
            total_seasons(groups@) == i,
            forall|si: int, sj: int|
                0 <= si < groups@.len() && 0 <= sj < groups@[si].seasons@.len()
                    ==> snapshot_season_ok(
                    #[trigger] groups@[si].seasons@[sj],
                    lib.seasons@,
                    lib.items@,
                ),
        decreases stored.len() - i,
    {
        let sea = &stored[i];
        let items = lib.read_season_items(sea.mikan_subject_id, sea.mikan_subgroup_id);
        let mut app_season = app_season_of(sea);
        let mut eps: Vec<AppAnimeEpisode> = Vec::new();
        let mut j: usize = 0;
        while j < items.len()
            invariant
                j <= items@.len(),
                eps@.len() == j,
                forall|e: int|
                    0 <= e < j ==> app_episode_matches(#[trigger] eps@[e], items@[e]),
            decreases items.len() - j,
        {
            eps.push(app_episode_of(&items[j]));
            j = j + 1;
        }
        let ghost epsv = eps@;
        app_season.episodes = sort_episodes(eps);
        proof {
            assert(app_season_fields(app_season, lib.seasons@[i as int]));
            assert(items@ == season_items(
                lib.items@,
                app_season.mikan_subject_id as int,
                app_season.mikan_subgroup_id as int,
            ));
            assert(exists|k: int|
                0 <= k < lib.seasons@.len() && app_season_fields(
                    app_season,
                    #[trigger] lib.seasons@[k],
                )) by {
                assert(app_season_fields(app_season, lib.seasons@[i as int]));
            }
            assert forall|e: int|
                0 <= e < app_season.episodes@.len() implies episode_from_one_of(
                #[trigger] app_season.episodes@[e],
                season_items(
                    lib.items@,
                    app_season.mikan_subject_id as int,
                    app_season.mikan_subgroup_id as int,
                ),
            ) by {
                assert(epsv.contains(app_season.episodes@[e]));
                let idx = choose|idx: int|
                    0 <= idx < epsv.len() && epsv[idx] == app_season.episodes@[e];
                assert(app_episode_matches(epsv[idx], items@[idx]));
                assert(season_items(
                    lib.items@,
                    app_season.mikan_subject_id as int,
                    app_season.mikan_subgroup_id as int,
                )[idx] == items@[idx]);
                assert(episode_from_one_of(
                    app_season.episodes@[e],
                    season_items(
                        lib.items@,
                        app_season.mikan_subject_id as int,
                        app_season.mikan_subgroup_id as int,
                    ),
                ));
            }
            assert(app_season.episodes@.len() == season_items(
                lib.items@,
                app_season.mikan_subject_id as int,
                app_season.mikan_subgroup_id as int,
            ).len());
            assert(snapshot_episodes_from(app_season, lib.items@));
            assert(snapshot_season_ok(app_season, lib.seasons@, lib.items@));
        }
        let mut found: Option<usize> = None;
        let mut g: usize = 0;
        while g < groups.len()
            invariant
                g <= groups@.len(),
                i < stored@.len(),
                sea == stored@[i as int],
                match found {
                    Some(f) => f < groups@.len(),
                    None => true,
                },
            decreases groups.len() - g,
        {
            if found.is_none() && crate::strutil::str_eq(
                groups[g].disp_series_name.as_str(),
                sea.disp_series_name.as_str(),
            ) {
                found = Some(g);
            }
            g = g + 1;
        }
        match found {
            Some(f) => {
                let ghost gpre = groups@;
                let mut grown = groups.remove(f);
                proof {
                    assert(grown == gpre[f as int]);
                    lemma_total_remove(gpre, f as int);
                }
                grown.seasons.push(app_season);
                let ghost gmid = groups@;
                groups.insert(f, grown);
                proof {
                    lemma_total_insert(gmid, f as int, grown);
                    assert forall|si: int, sj: int|
                        0 <= si < groups@.len() && 0 <= sj
                            < groups@[si].seasons@.len() implies snapshot_season_ok(
                        #[trigger] groups@[si].seasons@[sj],
                        lib.seasons@,
                        lib.items@,
                    ) by {
                        assert(groups@ =~= gpre.remove(f as int).insert(
                            f as int,
                            groups@[f as int],
                        ));
                        if si != f {
                            assert(groups@[si] == gpre[si]);
                        } else {
                            if sj < groups@[si].seasons@.len() - 1 {
                                assert(groups@[si].seasons@[sj] == gpre[f as int].seasons@[sj]);
                            }
                        }
                    }
                }
            },
            None => {
                let mut seasons: Vec<AppAnimeSeason> = Vec::new();
                seasons.push(app_season);
                let ghost gpre = groups@;
                groups.push(
                    AppAnimeSeries { disp_series_name: sea.disp_series_name.clone(), seasons },
                );
                proof {
                    assert(forall|si: int|
                        0 <= si < gpre.len() ==> #[trigger] groups@[si] == gpre[si]);
                    lemma_total_push(gpre, groups@.last());
                    assert(groups@ =~= gpre.push(groups@.last()));
                }
            },
        }
        i = i + 1;
    }

    let ghost total0 = total_seasons(groups@);
    let mut sorted_groups: Vec<AppAnimeSeries> = Vec::new();
    while groups.len() > 0
        invariant
            total_seasons(sorted_groups@) + total_seasons(groups@) == total0,
            stored@ == lib.seasons@,
            total0 == lib.seasons@.len(),
            forall|si: int, sj: int|
                0 <= si < groups@.len() && 0 <= sj < groups@[si].seasons@.len()
                    ==> snapshot_season_ok(
                    #[trigger] groups@[si].seasons@[sj],
                    lib.seasons@,
                    lib.items@,
                ),
            forall|si: int|
                0 <= si < sorted_groups@.len() ==> seasons_sorted(
                    (#[trigger] sorted_groups@[si]).seasons@,
                ),
            forall|si: int, sj: int|
                0 <= si < sorted_groups@.len() && 0 <= sj < sorted_groups@[si].seasons@.len()
                    ==> snapshot_season_ok(
                    #[trigger] sorted_groups@[si].seasons@[sj],
                    lib.seasons@,
                    lib.items@,
                ),
        decreases groups.len(),
    {
        let ghost gpre = groups@;
        let series = groups.remove(0);
        proof {
            assert(series == gpre[0]);
            assert(groups@ =~= gpre.skip(1));
            lemma_total_remove(gpre, 0);
            assert(gpre.remove(0) =~= gpre.skip(1));
            assert(forall|sj: int|
                0 <= sj < gpre.len() - 1 ==> #[trigger] groups@[sj] == gpre[sj + 1]);
        }
        let AppAnimeSeries { disp_series_name, seasons } = series;
        let ghost spre = seasons@;
        let sorted_seasons = sort_seasons(seasons);
        proof {
            assert forall|sjj: int|
                0 <= sjj < sorted_seasons@.len() implies snapshot_season_ok(
                #[trigger] sorted_seasons@[sjj],
                lib.seasons@,
                lib.items@,
            ) by {
                assert(spre.contains(sorted_seasons@[sjj]));
                let k = choose|k: int| 0 <= k < spre.len() && spre[k] == sorted_seasons@[sjj];
                assert(snapshot_season_ok(gpre[0].seasons@[k], lib.seasons@, lib.items@));
            }
        }
        let ghost spost = sorted_groups@;
        sorted_groups.push(AppAnimeSeries { disp_series_name, seasons: sorted_seasons });
        proof {
            assert(sorted_groups@.last().seasons@ == sorted_seasons@);
            lemma_total_push(spost, sorted_groups@.last());
            assert(sorted_groups@ =~= spost.push(sorted_groups@.last()));
        }
    }

    let mut out: Vec<AppAnimeSeries> = Vec::new();
    while sorted_groups.len() > 0
        invariant
            total_seasons(out@) + total_seasons(sorted_groups@) == total0,
            stored@ == lib.seasons@,
            total0 == lib.seasons@.len(),
            series_sorted(out@),
            forall|si: int|
                0 <= si < sorted_groups@.len() ==> seasons_sorted(
                    (#[trigger] sorted_groups@[si]).seasons@,
                ),
            forall|si: int, sj: int|
                0 <= si < sorted_groups@.len() && 0 <= sj < sorted_groups@[si].seasons@.len()
                    ==> snapshot_season_ok(
                    #[trigger] sorted_groups@[si].seasons@[sj],
                    lib.seasons@,
                    lib.items@,
                ),
            forall|si: int| 0 <= si < out@.len() ==> seasons_sorted((#[trigger] out@[si]).seasons@),
            forall|si: int, sj: int|
                0 <= si < out@.len() && 0 <= sj < out@[si].seasons@.len() ==> snapshot_season_ok(
                    #[trigger] out@[si].seasons@[sj],
                    lib.seasons@,
                    lib.items@,
                ),
        decreases sorted_groups.len(),
    {
        let ghost gpre = sorted_groups@;
        let series = sorted_groups.remove(0);
        proof {
            assert(series == gpre[0]);
            assert(sorted_groups@ =~= gpre.skip(1));
            lemma_total_remove(gpre, 0);
            assert(gpre.remove(0) =~= gpre.skip(1));
            assert(forall|sj: int|
                0 <= sj < gpre.len() - 1 ==> #[trigger] sorted_groups@[sj] == gpre[sj + 1]);
        }
        let mut pos: usize = 0;
        while pos < out.len() && lex_leq_exec(
            out[pos].disp_series_name.as_str(),
            series.disp_series_name.as_str(),
        )
            invariant
                pos <= out@.len(),
                forall|m: int|
                    0 <= m < pos ==> lex_leq(
                        (#[trigger] out@[m]).disp_series_name@,
                        series.disp_series_name@,
                    ),
            decreases out.len() - pos,
        {
            pos = pos + 1;
        }
        let ghost before = out@;
        let ghost sv = series;
        proof {
            lemma_insert_series(before, sv, pos as int, lib.seasons@, lib.items@);
            lemma_total_insert(before, pos as int, sv);
        }
        out.insert(pos, series);
    }
    out
}

/// Inserting a series at the first position whose name orders after it
/// keeps the name order, and keeps every series' seasons sound and ordered.
#[verifier::spinoff_prover]
proof fn lemma_insert_series(
    before: Seq<AppAnimeSeries>,
    e: AppAnimeSeries,
    pos: int,
    gs: Seq<AnimeSeason>,
    gi: Seq<AnimeSeasonItem>,
)
    requires
        series_sorted(before),
        forall|si: int| 0 <= si < before.len() ==> seasons_sorted((#[trigger] before[si]).seasons@),
        forall|si: int, sj: int|
            0 <= si < before.len() && 0 <= sj < before[si].seasons@.len() ==> snapshot_season_ok(
                (#[trigger] before[si].seasons@[sj]),
                gs,
                gi,
            ),
        seasons_sorted(e.seasons@),
        forall|sj: int|
            0 <= sj < e.seasons@.len() ==> snapshot_season_ok((#[trigger] e.seasons@[sj]), gs, gi),
        0 <= pos <= before.len(),
        forall|m: int|
            0 <= m < pos ==> lex_leq((#[trigger] before[m]).disp_series_name@, e.disp_series_name@),
        pos < before.len() ==> !lex_leq(before[pos].disp_series_name@, e.disp_series_name@),
    ensures
        series_sorted(before.insert(pos, e)),
        forall|si: int|
            0 <= si < before.insert(pos, e).len() ==> seasons_sorted(
                (#[trigger] before.insert(pos, e)[si]).seasons@,
            ),
        forall|si: int, sj: int|
            0 <= si < before.insert(pos, e).len() && 0 <= sj < before.insert(
                pos,
                e,
            )[si].seasons@.len() ==> snapshot_season_ok(
                (#[trigger] before.insert(pos, e)[si].seasons@[sj]),
                gs,
                gi,
            ),
{
    let new = before.insert(pos, e);
    assert(new =~= before.take(pos) + seq![e] + before.skip(pos));
    assert(forall|k: int| 0 <= k < pos ==> #[trigger] new[k] == before[k]);
    assert(new[pos] == e);
    assert(forall|k: int| pos < k < new.len() ==> #[trigger] new[k] == before[k - 1]);
    if pos < before.len() {
        lemma_lex_total(before[pos].disp_series_name@, e.disp_series_name@);
    }
    assert forall|m: int, n: int| 0 <= m < n < new.len() implies lex_leq(
        (#[trigger] new[m]).disp_series_name@,
        (#[trigger] new[n]).disp_series_name@,
    ) by {
        if m == pos && n > pos {
            if n - 1 == pos {
                lemma_lex_refl(before[pos].disp_series_name@);
            }
            lemma_lex_trans(
                e.disp_series_name@,
                before[pos].disp_series_name@,
                before[n - 1].disp_series_name@,
            );
        }
    }
    assert forall|si: int| 0 <= si < new.len() implies seasons_sorted(
        (#[trigger] new[si]).seasons@,
    ) by {}
    assert forall|si: int, sj: int|
        0 <= si < new.len() && 0 <= sj < new[si].seasons@.len() implies snapshot_season_ok(
        (#[trigger] new[si].seasons@[sj]),
        gs,
        gi,
    ) by {}
}

/// Every name orders at or before itself.
proof fn lemma_lex_refl(a: Seq<char>)
    ensures
        lex_leq(a, a),
    decreases a.len(),
{
    if a.len() > 0 {
        lemma_lex_refl(a.skip(1));
    }
}

/// The order carries over: a name at or before a second, itself at or before
/// a third, is at or before the third.
proof fn lemma_lex_trans(a: Seq<char>, b: Seq<char>, c: Seq<char>)
    requires
        lex_leq(a, b),
        lex_leq(b, c),
    ensures
        lex_leq(a, c),
    decreases a.len(),
{
    if a.len() > 0 && b.len() > 0 && c.len() > 0 {
        if a[0] == b[0] && b[0] == c[0] {
            lemma_lex_trans(a.skip(1), b.skip(1), c.skip(1));
        }
    }
}


} // verus!
