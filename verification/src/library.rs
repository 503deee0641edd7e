//! The per-season media library and its reconciliation.
//!
//! Seasons are keyed by (feed-subject, feed-subgroup) and items by release
//! identity.  Reconciliation merges resolved releases into season and item
//! records, applies per-season language and codec filters, and computes
//! display episode numbers; the auto-configuration pass infers one language
//! and codec combination per season and prunes everything else.
//!
//! Episode numbers and offsets are bounded by `in_range` (a billion), so
//! that no display-number sum can leave the machine integer type.

use vstd::prelude::*;
use crate::cache_store::{find_subject, MikanItem, MikanSubject, RssCache};
use crate::strutil::{chars_of, contains_chars, contains_sub, i32_to_string, int_str, str_contains, str_eq, string_from};
use vstd::string::StringExecFns;

verus! {

/// One season of the library: a (feed-subject, feed-subgroup) pair with its
/// display fields and configuration.
pub struct AnimeSeason {
    /// The feed-scoped subject (primary key, first half).
    pub mikan_subject_id: i32,
    /// The feed-scoped release group (primary key, second half).
    pub mikan_subgroup_id: i32,
    /// The feed's name for the subject.
    pub mikan_subject_name: String,
    /// The feed's cover image.
    pub mikan_subject_image: String,
    /// The community-catalog subject, or `-1`.
    pub bangumi_subject_id: i32,
    /// The community catalog's subject name.
    pub bangumi_subject_name: String,
    /// The community catalog's season number, or `-1`.
    pub bangumi_season_num: i32,
    /// The community catalog's cover image.
    pub bangumi_subject_image: String,
    /// The secondary-catalog series, or `-1`.
    pub tmdb_series_id: i32,
    /// The secondary catalog's series name.
    pub tmdb_series_name: String,
    /// The secondary catalog's season number, or `-1`.
    pub tmdb_season_num: i32,
    /// The secondary catalog's season name.
    pub tmdb_season_name: String,
    /// Offset between canonical and secondary episode numbering.
    pub bangumi_to_tmdb_episode_offset: i32,
    /// The series name shown downstream.
    pub disp_series_name: String,
    /// The season name shown downstream.
    pub disp_season_name: String,
    /// The release group's name shown downstream.
    pub disp_subgroup_name: String,
    /// The season number shown downstream.
    pub disp_season_num: i32,
    /// The configured episode offset added to parsed episode numbers.
    pub conf_tmdb_episode_offset: i32,
    /// The language filter; empty means no restriction.
    pub conf_language: String,
    /// The codec filter; empty means no restriction.
    pub conf_codec: String,
    /// A user's season-number override, or `-1` for none.
    pub conf_season_num: i32,
    /// A user's canonical-episode offset.
    pub conf_bangumi_episode_offset: i32,
}

impl Clone for AnimeSeason {
    /// An exact copy of the season record.
    fn clone(&self) -> (r: Self)
        ensures
            r == *self,
    {
        AnimeSeason {
            mikan_subject_id: self.mikan_subject_id,
            mikan_subgroup_id: self.mikan_subgroup_id,
            mikan_subject_name: self.mikan_subject_name.clone(),
            mikan_subject_image: self.mikan_subject_image.clone(),
            bangumi_subject_id: self.bangumi_subject_id,
            bangumi_subject_name: self.bangumi_subject_name.clone(),
            bangumi_season_num: self.bangumi_season_num,
            bangumi_subject_image: self.bangumi_subject_image.clone(),
            tmdb_series_id: self.tmdb_series_id,
            tmdb_series_name: self.tmdb_series_name.clone(),
            tmdb_season_num: self.tmdb_season_num,
            tmdb_season_name: self.tmdb_season_name.clone(),
            bangumi_to_tmdb_episode_offset: self.bangumi_to_tmdb_episode_offset,
            disp_series_name: self.disp_series_name.clone(),
            disp_season_name: self.disp_season_name.clone(),
            disp_subgroup_name: self.disp_subgroup_name.clone(),
            disp_season_num: self.disp_season_num,
            conf_tmdb_episode_offset: self.conf_tmdb_episode_offset,
            conf_language: self.conf_language.clone(),
            conf_codec: self.conf_codec.clone(),
            conf_season_num: self.conf_season_num,
            conf_bangumi_episode_offset: self.conf_bangumi_episode_offset,
        }
    }
}

/// One library item: a release placed in its season, with its display
/// episode number.
pub struct AnimeSeasonItem {
    /// The release identity (primary key).
    pub mikan_item_uuid: String,
    /// The season's feed-subject half.
    pub mikan_subject_id: i32,
    /// The feed's name for the subject.
    pub mikan_subject_name: String,
    /// The season's feed-subgroup half.
    pub mikan_subgroup_id: i32,
    /// The raw release title.
    pub mikan_item_title: String,
    /// The magnet locator.
    pub mikan_item_magnet_link: String,
    /// When the torrent was published.
    pub mikan_item_pub_date: String,
    /// The secondary catalog's series name.
    pub tmdb_series_name: String,
    /// The secondary catalog's season name.
    pub tmdb_season_name: String,
    /// The secondary catalog's season number, or `-1`.
    pub tmdb_parsed_season_num: i32,
    /// The community catalog's season number, or `-1`.
    pub bangumi_parsed_season_num: i32,
    /// The episode number parsed from the title, or `-1`.
    pub mikan_parsed_episode_num: i32,
    /// Comma-joined language tags.
    pub mikan_parsed_language: String,
    /// Comma-joined codec tags.
    pub mikan_parsed_codec: String,
    /// The parsed episode number plus the season's episode offset.
    pub disp_episode_num: i32,
    /// The canonical episode, or `-1`.
    pub bangumi_parsed_episode_id: i32,
    /// The canonical episode's raw index, or `-1`.
    pub bangumi_parsed_episode_ep: i32,
    /// The canonical episode's display index, as a decimal string.
    pub bangumi_parsed_episode_sort: String,
}

impl Clone for AnimeSeasonItem {
    /// An exact copy of the item record.
    fn clone(&self) -> (r: Self)
        ensures
            r == *self,
    {
        AnimeSeasonItem {
            mikan_item_uuid: self.mikan_item_uuid.clone(),
            mikan_subject_id: self.mikan_subject_id,
            mikan_subject_name: self.mikan_subject_name.clone(),
            mikan_subgroup_id: self.mikan_subgroup_id,
            mikan_item_title: self.mikan_item_title.clone(),
            mikan_item_magnet_link: self.mikan_item_magnet_link.clone(),
            mikan_item_pub_date: self.mikan_item_pub_date.clone(),
            tmdb_series_name: self.tmdb_series_name.clone(),
            tmdb_season_name: self.tmdb_season_name.clone(),
            tmdb_parsed_season_num: self.tmdb_parsed_season_num,
            bangumi_parsed_season_num: self.bangumi_parsed_season_num,
            mikan_parsed_episode_num: self.mikan_parsed_episode_num,
            mikan_parsed_language: self.mikan_parsed_language.clone(),
            mikan_parsed_codec: self.mikan_parsed_codec.clone(),
            disp_episode_num: self.disp_episode_num,
            bangumi_parsed_episode_id: self.bangumi_parsed_episode_id,
            bangumi_parsed_episode_ep: self.bangumi_parsed_episode_ep,
            bangumi_parsed_episode_sort: self.bangumi_parsed_episode_sort.clone(),
        }
    }
}

/// A bound on episode numbers and offsets, far below the machine integer
/// limits, so that their sums always fit.
pub open spec fn in_range(n: int) -> bool {
    -1000000000 <= n <= 1000000000
}

/// Whether a season carries the given key.
pub open spec fn season_key(s: AnimeSeason, sid: int, gid: int) -> bool {
    s.mikan_subject_id == sid && s.mikan_subgroup_id == gid
}

/// Whether an item belongs to the given season key.
pub open spec fn item_key(it: AnimeSeasonItem, sid: int, gid: int) -> bool {
    it.mikan_subject_id == sid && it.mikan_subgroup_id == gid
}

/// The first season with the given key.
pub open spec fn find_season(s: Seq<AnimeSeason>, sid: int, gid: int) -> Option<AnimeSeason>
    decreases s.len(),
{
    if s.len() == 0 {
        None
    } else if season_key(s[0], sid, gid) {
        Some(s[0])
    } else {
        find_season(s.skip(1), sid, gid)
    }
}

/// The first library item with the given identity.
pub open spec fn find_library_item(s: Seq<AnimeSeasonItem>, uuid: Seq<char>) -> Option<
    AnimeSeasonItem,
>
    decreases s.len(),
{
    if s.len() == 0 {
        None
    } else if s[0].mikan_item_uuid@ == uuid {
        Some(s[0])
    } else {
        find_library_item(s.skip(1), uuid)
    }
}

/// The index of the first season with the given key, or a negative number.
pub open spec fn season_index(s: Seq<AnimeSeason>, sid: int, gid: int) -> int
    decreases s.len(),
{
    if s.len() == 0 {
        -1
    } else if season_key(s[0], sid, gid) {
        0
    } else if season_index(s.skip(1), sid, gid) >= 0 {
        1 + season_index(s.skip(1), sid, gid)
    } else {
        -1
    }
}

/// The index of the first item with the given identity, or a negative
/// number.
pub open spec fn item_index(s: Seq<AnimeSeasonItem>, uuid: Seq<char>) -> int
    decreases s.len(),
{
    if s.len() == 0 {
        -1
    } else if s[0].mikan_item_uuid@ == uuid {
        0
    } else if item_index(s.skip(1), uuid) >= 0 {
        1 + item_index(s.skip(1), uuid)
    } else {
        -1
    }
}

/// Upserting a season: the first season with its key is replaced, or the
/// season is appended when the key is new.
pub open spec fn upsert_season(s: Seq<AnimeSeason>, sea: AnimeSeason) -> Seq<AnimeSeason> {
    let i = season_index(s, sea.mikan_subject_id as int, sea.mikan_subgroup_id as int);
    if i >= 0 {
        s.update(i, sea)
    } else {
        s.push(sea)
    }
}

/// Upserting an item: the first item with its identity is replaced, or the
/// item is appended when the identity is new.
pub open spec fn upsert_item(s: Seq<AnimeSeasonItem>, it: AnimeSeasonItem) -> Seq<
    AnimeSeasonItem,
> {
    let i = item_index(s, it.mikan_item_uuid@);
    if i >= 0 {
        s.update(i, it)
    } else {
        s.push(it)
    }
}

/// The items of one season, in library order.
pub open spec fn season_items(s: Seq<AnimeSeasonItem>, sid: int, gid: int) -> Seq<AnimeSeasonItem>
    decreases s.len(),
{
    if s.len() == 0 {
        Seq::<AnimeSeasonItem>::empty()
    } else {
        let rest = season_items(s.skip(1), sid, gid);
        if item_key(s[0], sid, gid) {
            seq![s[0]] + rest
        } else {
            rest
        }
    }
}

/// The library row a resolved release makes in its season: every parsed
/// field carried over, and the display number offset by the season's
/// configured episode offset.
pub open spec fn item_record(it: MikanItem, sea: AnimeSeason) -> AnimeSeasonItem {
    AnimeSeasonItem {
        mikan_item_uuid: it.mikan_item_uuid,
        mikan_subject_id: it.mikan_subject_id,
        mikan_subject_name: it.mikan_subject_name,
        mikan_subgroup_id: it.mikan_subgroup_id,
        mikan_item_title: it.mikan_item_title,
        mikan_item_magnet_link: it.mikan_item_magnet_link,
        mikan_item_pub_date: it.mikan_item_pub_date,
        tmdb_series_name: it.tmdb_series_name,
        tmdb_season_name: it.tmdb_season_name,
        tmdb_parsed_season_num: it.tmdb_parsed_season_num,
        bangumi_parsed_season_num: it.bangumi_parsed_season_num,
        mikan_parsed_episode_num: it.mikan_parsed_episode_num,
        mikan_parsed_language: it.mikan_parsed_language,
        mikan_parsed_codec: it.mikan_parsed_codec,
        disp_episode_num: (it.mikan_parsed_episode_num + sea.conf_tmdb_episode_offset) as i32,
        bangumi_parsed_episode_id: it.bangumi_parsed_episode_id,
        bangumi_parsed_episode_ep: it.bangumi_parsed_episode_ep,
        bangumi_parsed_episode_sort: it.bangumi_parsed_episode_sort,
    }
}

/// The season record built from a release and its cached subject mapping,
/// pinned field by field: display names prefer the secondary catalog and
/// fall back to the community catalog; the display season number prefers the
/// secondary catalog; a missing season name is synthesized as `Season N`;
/// filters start empty, offsets at zero, and no season-number override is
/// set.
pub open spec fn season_matches_subject(sea: AnimeSeason, it: MikanItem, sub: MikanSubject) -> bool {
    &&& sea.mikan_subject_id == it.mikan_subject_id
    &&& sea.mikan_subgroup_id == it.mikan_subgroup_id
    &&& sea.mikan_subject_name@ == sub.bangumi_subject_name@
    &&& sea.mikan_subject_image@ == sub.mikan_subject_image_url@
    &&& sea.bangumi_subject_id == sub.bangumi_subject_id
    &&& sea.bangumi_subject_name@ == sub.bangumi_subject_name@
    &&& sea.bangumi_season_num == sub.bangumi_season_num
    &&& sea.bangumi_subject_image@ == sub.bangumi_subject_image_url@
    &&& sea.tmdb_series_id == sub.tmdb_series_id
    &&& sea.tmdb_series_name@ == sub.tmdb_series_name@
    &&& sea.tmdb_season_num == sub.tmdb_season_num
    &&& sea.tmdb_season_name@ == sub.tmdb_season_name@
    &&& sea.bangumi_to_tmdb_episode_offset == sub.bangumi_to_tmdb_episode_offset
    &&& sea.disp_series_name@ == if sub.tmdb_series_name@.len() == 0 {
        sub.bangumi_subject_name@
    } else {
        sub.tmdb_series_name@
    }
    &&& sea.disp_season_num == if sub.tmdb_season_num == -1 {
        sub.bangumi_season_num
    } else {
        sub.tmdb_season_num
    }
    &&& sea.disp_season_name@ == if sub.tmdb_season_name@.len() == 0 {
        "Season "@ + int_str(sea.disp_season_num as int)
    } else {
        sub.tmdb_season_name@
    }
    &&& sea.disp_subgroup_name@ == "字幕组名称"@
    &&& sea.conf_tmdb_episode_offset == 0
    &&& sea.conf_language@.len() == 0
    &&& sea.conf_codec@.len() == 0
    &&& sea.conf_season_num == -1
    &&& sea.conf_bangumi_episode_offset == 0
}

/// When the first `k` entries miss the key, the first hit at `k` (or none at
/// all) decides the season index.
proof fn lemma_season_index_char(s: Seq<AnimeSeason>, sid: int, gid: int, k: int)
    requires
        0 <= k <= s.len(),
        forall|m: int| 0 <= m < k ==> !season_key(#[trigger] s[m], sid, gid),
    ensures
        k < s.len() && season_key(s[k], sid, gid) ==> season_index(s, sid, gid) == k,
        k == s.len() ==> season_index(s, sid, gid) == -1,
        k < s.len() && season_key(s[k], sid, gid) ==> find_season(s, sid, gid) == Some(s[k]),
        k == s.len() ==> find_season(s, sid, gid) is None,
    decreases k,
{
    if s.len() > 0 {
        if k == 0 {
            if season_key(s[0], sid, gid) {
            } else {
            }
        } else {
            assert(!season_key(s[0], sid, gid));
            assert(forall|m: int|
                0 <= m < k - 1 ==> !season_key(#[trigger] s.skip(1)[m], sid, gid)) by {
                assert(forall|m: int| 0 <= m < k - 1 ==> s.skip(1)[m] == s[m + 1]);
            }
            lemma_season_index_char(s.skip(1), sid, gid, k - 1);
        }
    }
}

/// As `lemma_season_index_char`, for item identities.
proof fn lemma_item_index_char(s: Seq<AnimeSeasonItem>, uuid: Seq<char>, k: int)
    requires
        0 <= k <= s.len(),
        forall|m: int| 0 <= m < k ==> (#[trigger] s[m]).mikan_item_uuid@ != uuid,
    ensures
        k < s.len() && s[k].mikan_item_uuid@ == uuid ==> item_index(s, uuid) == k,
        k == s.len() ==> item_index(s, uuid) == -1,
        k < s.len() && s[k].mikan_item_uuid@ == uuid ==> find_library_item(s, uuid) == Some(s[k]),
        k == s.len() ==> find_library_item(s, uuid) is None,
    decreases k,
{
    if s.len() > 0 {
        if k == 0 {
        } else {
            assert(forall|m: int|
                0 <= m < k - 1 ==> (#[trigger] s.skip(1)[m]).mikan_item_uuid@ != uuid) by {
                assert(forall|m: int| 0 <= m < k - 1 ==> s.skip(1)[m] == s[m + 1]);
            }
            lemma_item_index_char(s.skip(1), uuid, k - 1);
        }
    }
}

/// The media library: season records and item records.
pub struct Library {
    /// The seasons, keyed by (feed-subject, feed-subgroup).
    pub seasons: Vec<AnimeSeason>,
    /// The items, keyed by release identity; each belongs to a season.
    pub items: Vec<AnimeSeasonItem>,
}

impl Library {
    /// An empty library.
    pub fn new() -> (lib: Library)
        ensures
            lib.seasons@ =~= Seq::<AnimeSeason>::empty(),
            lib.items@ =~= Seq::<AnimeSeasonItem>::empty(),
    {
        Library { seasons: Vec::new(), items: Vec::new() }
    }

    /// The position of the first season with the key, fully characterized.
    fn season_pos(&self, sid: i32, gid: i32) -> (r: Option<usize>)
        ensures
            match r {
                Some(i) => i as int == season_index(self.seasons@, sid as int, gid as int)
                    && i < self.seasons@.len() && season_key(self.seasons@[i as int], sid as int, gid as int)
                    && find_season(self.seasons@, sid as int, gid as int) == Some(
                    self.seasons@[i as int],
                ),
                None => season_index(self.seasons@, sid as int, gid as int) == -1
                    && find_season(self.seasons@, sid as int, gid as int) is None,
            },
    {
        let ghost all = self.seasons@;
        let mut i: usize = 0;
        while i < self.seasons.len()
            invariant
                i <= all.len(),
                self.seasons@ == all,
                forall|m: int| 0 <= m < i ==> !season_key(#[trigger] all[m], sid as int, gid as int),
            decreases all.len() - i,
        {
            let sea = &self.seasons[i];
            if sea.mikan_subject_id == sid && sea.mikan_subgroup_id == gid {
                proof {
                    lemma_season_index_char(all, sid as int, gid as int, i as int);
                }
                return Some(i);
            }
            i = i + 1;
        }
        proof {
            lemma_season_index_char(all, sid as int, gid as int, all.len() as int);
        }
        None
    }

    /// The position of the first item with the identity, fully characterized.
    fn item_pos(&self, uuid: &str) -> (r: Option<usize>)
        ensures
            match r {
                Some(i) => i as int == item_index(self.items@, uuid@) && i < self.items@.len()
                    && self.items@[i as int].mikan_item_uuid@ == uuid@ && find_library_item(
                    self.items@,
                    uuid@,
                ) == Some(self.items@[i as int]),
                None => item_index(self.items@, uuid@) == -1 && find_library_item(
                    self.items@,
                    uuid@,
                ) is None,
            },
    {
        let ghost all = self.items@;
        let mut i: usize = 0;
        while i < self.items.len()
            invariant
                i <= all.len(),
                self.items@ == all,
                forall|m: int| 0 <= m < i ==> (#[trigger] all[m]).mikan_item_uuid@ != uuid@,
            decreases all.len() - i,
        {
            if str_eq(self.items[i].mikan_item_uuid.as_str(), uuid) {
                proof {
                    lemma_item_index_char(all, uuid@, i as int);
                }
                return Some(i);
            }
            i = i + 1;
        }
        proof {
            lemma_item_index_char(all, uuid@, all.len() as int);
        }
        None
    }

    /// The season stored under the given key, if any.
    pub fn read_season_info(&self, mikan_subject_id: i32, mikan_subgroup_id: i32) -> (r: Option<
        AnimeSeason,
    >)
        ensures
            match r {
                Some(sea) => find_season(
                    self.seasons@,
                    mikan_subject_id as int,
                    mikan_subgroup_id as int,
                ) == Some(sea),
                None => find_season(
                    self.seasons@,
                    mikan_subject_id as int,
                    mikan_subgroup_id as int,
                ) is None,
            },
    {
        match self.season_pos(mikan_subject_id, mikan_subgroup_id) {
            Some(i) => Some(self.seasons[i].clone()),
            None => None,
        }
    }

    /// Upserts a season under its key.
    pub fn create_season(&mut self, season: &AnimeSeason)
        ensures
            final(self).seasons@ == upsert_season(old(self).seasons@, *season),
            final(self).items@ == old(self).items@,
    {
        match self.season_pos(season.mikan_subject_id, season.mikan_subgroup_id) {
            Some(i) => {
                self.seasons.set(i, season.clone());
            },
            None => {
                self.seasons.push(season.clone());
            },
        }
    }

    /// Every stored season, in library order.
    pub fn read_seasons(&self) -> (r: Vec<AnimeSeason>)
        ensures
            r@ == self.seasons@,
    {
        let mut out: Vec<AnimeSeason> = Vec::new();
        let mut i: usize = 0;
        while i < self.seasons.len()
            invariant
                i <= self.seasons@.len(),
                out@ == self.seasons@.take(i as int),
            decreases self.seasons.len() - i,
        {
            out.push(self.seasons[i].clone());
            i = i + 1;
            proof {
                assert(out@ =~= self.seasons@.take(i as int));
            }
        }
        proof {
            assert(out@ =~= self.seasons@);
        }
        out
    }

    /// Every stored item, in library order.
    pub fn read_all_items(&self) -> (r: Vec<AnimeSeasonItem>)
        ensures
            r@ == self.items@,
    {
        let mut out: Vec<AnimeSeasonItem> = Vec::new();
        let mut i: usize = 0;
        while i < self.items.len()
            invariant
                i <= self.items@.len(),
                out@ == self.items@.take(i as int),
            decreases self.items.len() - i,
        {
            out.push(self.items[i].clone());
            i = i + 1;
            proof {
                assert(out@ =~= self.items@.take(i as int));
            }
        }
        proof {
            assert(out@ =~= self.items@);
        }
        out
    }

    /// The items of one season, in library order.
    pub fn read_season_items(&self, mikan_subject_id: i32, mikan_subgroup_id: i32) -> (r: Vec<
        AnimeSeasonItem,
    >)
        ensures
            r@ == season_items(self.items@, mikan_subject_id as int, mikan_subgroup_id as int),
    {
        let ghost all = self.items@;
        let ghost sid = mikan_subject_id as int;
        let ghost gid = mikan_subgroup_id as int;
        let mut out: Vec<AnimeSeasonItem> = Vec::new();
        let mut i: usize = 0;
        proof {
            assert(all.skip(0) =~= all);
            assert(out@ + season_items(all, sid, gid) =~= season_items(all, sid, gid));
        }
        while i < self.items.len()
            invariant
                i <= all.len(),
                self.items@ == all,
                sid == mikan_subject_id as int,
                gid == mikan_subgroup_id as int,
                season_items(all, sid, gid) == out@ + season_items(all.skip(i as int), sid, gid),
            decreases all.len() - i,
        {
            proof {
                assert(all.skip(i as int)[0] == all[i as int]);
                assert(all.skip(i as int).skip(1) =~= all.skip(i as int + 1));
            }
            let it = &self.items[i];
            if it.mikan_subject_id == mikan_subject_id && it.mikan_subgroup_id == mikan_subgroup_id {
                out.push(it.clone());
            }
            i = i + 1;
        }
        proof {
            assert(all.skip(i as int) =~= Seq::<AnimeSeasonItem>::empty());
            assert(out@ + Seq::<AnimeSeasonItem>::empty() =~= out@);
        }
        out
    }

    /// Places a resolved release in its season: the stored row carries the
    /// parsed fields and the display number offset by the season's episode
    /// offset.  The season must already exist: season creation is a
    /// prerequisite step, never implicit.
    pub fn create_item(&mut self, item: &MikanItem)
        requires
            find_season(
                old(self).seasons@,
                item.mikan_subject_id as int,
                item.mikan_subgroup_id as int,
            ) is Some,
            in_range(item.mikan_parsed_episode_num as int),
            in_range(
                find_season(
                    old(self).seasons@,
                    item.mikan_subject_id as int,
                    item.mikan_subgroup_id as int,
                )->Some_0.conf_tmdb_episode_offset as int,
            ),
        ensures
            final(self).items@ == upsert_item(
                old(self).items@,
                item_record(
                    *item,
                    find_season(
                        old(self).seasons@,
                        item.mikan_subject_id as int,
                        item.mikan_subgroup_id as int,
                    )->Some_0,
                ),
            ),
            final(self).seasons@ == old(self).seasons@,
    {
        let sea = match self.season_pos(item.mikan_subject_id, item.mikan_subgroup_id) {
            Some(i) => self.seasons[i].clone(),
            None => {
                proof {
                    assert(false);
                }
                return ;
            },
        };
        let row = AnimeSeasonItem {
            mikan_item_uuid: item.mikan_item_uuid.clone(),
            mikan_subject_id: item.mikan_subject_id,
            mikan_subject_name: item.mikan_subject_name.clone(),
            mikan_subgroup_id: item.mikan_subgroup_id,
            mikan_item_title: item.mikan_item_title.clone(),
            mikan_item_magnet_link: item.mikan_item_magnet_link.clone(),
            mikan_item_pub_date: item.mikan_item_pub_date.clone(),
            tmdb_series_name: item.tmdb_series_name.clone(),
            tmdb_season_name: item.tmdb_season_name.clone(),
            tmdb_parsed_season_num: item.tmdb_parsed_season_num,
            bangumi_parsed_season_num: item.bangumi_parsed_season_num,
            mikan_parsed_episode_num: item.mikan_parsed_episode_num,
            mikan_parsed_language: item.mikan_parsed_language.clone(),
            mikan_parsed_codec: item.mikan_parsed_codec.clone(),
            disp_episode_num: item.mikan_parsed_episode_num + sea.conf_tmdb_episode_offset,
            bangumi_parsed_episode_id: item.bangumi_parsed_episode_id,
            bangumi_parsed_episode_ep: item.bangumi_parsed_episode_ep,
            bangumi_parsed_episode_sort: item.bangumi_parsed_episode_sort.clone(),
        };
        proof {
            assert(row == item_record(*item, sea));
        }
        match self.item_pos(item.mikan_item_uuid.as_str()) {
            Some(i) => {
                self.items.set(i, row);
            },
            None => {
                self.items.push(row);
            },
        }
    }

    /// Deletes every item with the given identity.
    pub fn delete_item(&mut self, item_uuid: &str)
        ensures
            final(self).items@ == remove_item(old(self).items@, item_uuid@),
            final(self).seasons@ == old(self).seasons@,
    {
        let ghost all = self.items@;
        let mut out: Vec<AnimeSeasonItem> = Vec::new();
        let mut i: usize = 0;
        proof {
            assert(all.skip(0) =~= all);
            assert(out@ + remove_item(all, item_uuid@) =~= remove_item(all, item_uuid@));
        }
        while i < self.items.len()
            invariant
                i <= all.len(),
                self.items@ == all,
                remove_item(all, item_uuid@) == out@ + remove_item(all.skip(i as int), item_uuid@),
            decreases all.len() - i,
        {
            proof {
                assert(all.skip(i as int)[0] == all[i as int]);
                assert(all.skip(i as int).skip(1) =~= all.skip(i as int + 1));
            }
            if !str_eq(self.items[i].mikan_item_uuid.as_str(), item_uuid) {
                out.push(self.items[i].clone());
            }
            i = i + 1;
        }
        proof {
            assert(all.skip(i as int) =~= Seq::<AnimeSeasonItem>::empty());
            assert(out@ + Seq::<AnimeSeasonItem>::empty() =~= out@);
        }
        self.items = out;
    }

    /// Deletes the seasons with the given key, and with them their items, so
    /// that no item is left without its season.
    pub fn delete_season(&mut self, mikan_subject_id: i32, mikan_subgroup_id: i32)
        ensures
            final(self).seasons@ == remove_season(
                old(self).seasons@,
                mikan_subject_id as int,
                mikan_subgroup_id as int,
            ),
            final(self).items@ == remove_key_items(
                old(self).items@,
                mikan_subject_id as int,
                mikan_subgroup_id as int,
            ),
    {
        let ghost sall = self.seasons@;
        let ghost sid = mikan_subject_id as int;
        let ghost gid = mikan_subgroup_id as int;
        let mut outs: Vec<AnimeSeason> = Vec::new();
        let mut i: usize = 0;
        proof {
            assert(sall.skip(0) =~= sall);
            assert(outs@ + remove_season(sall, sid, gid) =~= remove_season(sall, sid, gid));
        }
        while i < self.seasons.len()
            invariant
                i <= sall.len(),
                self.seasons@ == sall,
                sid == mikan_subject_id as int,
                gid == mikan_subgroup_id as int,
                remove_season(sall, sid, gid) == outs@ + remove_season(
                    sall.skip(i as int),
                    sid,
                    gid,
                ),
            decreases sall.len() - i,
        {
            proof {
                assert(sall.skip(i as int)[0] == sall[i as int]);
                assert(sall.skip(i as int).skip(1) =~= sall.skip(i as int + 1));
            }
            let sea = &self.seasons[i];
            if !(sea.mikan_subject_id == mikan_subject_id && sea.mikan_subgroup_id
                == mikan_subgroup_id) {
                outs.push(sea.clone());
            }
            i = i + 1;
        }
        proof {
            assert(sall.skip(i as int) =~= Seq::<AnimeSeason>::empty());
            assert(outs@ + Seq::<AnimeSeason>::empty() =~= outs@);
        }
        self.seasons = outs;

        let ghost iall = self.items@;
        let mut outi: Vec<AnimeSeasonItem> = Vec::new();
        let mut j: usize = 0;
        proof {
            assert(iall.skip(0) =~= iall);
            assert(outi@ + remove_key_items(iall, sid, gid) =~= remove_key_items(iall, sid, gid));
        }
        while j < self.items.len()
            invariant
                j <= iall.len(),
                self.items@ == iall,
                sid == mikan_subject_id as int,
                gid == mikan_subgroup_id as int,
                remove_key_items(iall, sid, gid) == outi@ + remove_key_items(
                    iall.skip(j as int),
                    sid,
                    gid,
                ),
            decreases iall.len() - j,
        {
            proof {
                assert(iall.skip(j as int)[0] == iall[j as int]);
                assert(iall.skip(j as int).skip(1) =~= iall.skip(j as int + 1));
            }
            let it = &self.items[j];
            if !(it.mikan_subject_id == mikan_subject_id && it.mikan_subgroup_id
                == mikan_subgroup_id) {
                outi.push(it.clone());
            }
            j = j + 1;
        }
        proof {
            assert(iall.skip(j as int) =~= Seq::<AnimeSeasonItem>::empty());
            assert(outi@ + Seq::<AnimeSeasonItem>::empty() =~= outi@);
        }
        self.items = outi;
    }
}

/// The items left after deleting one identity.
pub open spec fn remove_item(s: Seq<AnimeSeasonItem>, uuid: Seq<char>) -> Seq<AnimeSeasonItem>
    decreases s.len(),
{
    if s.len() == 0 {
        Seq::<AnimeSeasonItem>::empty()
    } else {
        let rest = remove_item(s.skip(1), uuid);
        if s[0].mikan_item_uuid@ != uuid {
            seq![s[0]] + rest
        } else {
            rest
        }
    }
}

/// The seasons left after deleting one key.
pub open spec fn remove_season(s: Seq<AnimeSeason>, sid: int, gid: int) -> Seq<AnimeSeason>
    decreases s.len(),
{
    if s.len() == 0 {
        Seq::<AnimeSeason>::empty()
    } else {
        let rest = remove_season(s.skip(1), sid, gid);
        if !season_key(s[0], sid, gid) {
            seq![s[0]] + rest
        } else {
            rest
        }
    }
}

/// The items left after deleting one season key.
pub open spec fn remove_key_items(s: Seq<AnimeSeasonItem>, sid: int, gid: int) -> Seq<
    AnimeSeasonItem,
>
    decreases s.len(),
{
    if s.len() == 0 {
        Seq::<AnimeSeasonItem>::empty()
    } else {
        let rest = remove_key_items(s.skip(1), sid, gid);
        if !item_key(s[0], sid, gid) {
            seq![s[0]] + rest
        } else {
            rest
        }
    }
}

/// A season with the given configuration written into it.
pub open spec fn with_conf(
    s: AnimeSeason,
    off: i32,
    lang: String,
    codec: String,
    boff: i32,
) -> AnimeSeason {
    AnimeSeason {
        conf_tmdb_episode_offset: off,
        conf_language: lang,
        conf_codec: codec,
        conf_bangumi_episode_offset: boff,
        ..s
    }
}

/// The seasons with the configuration written into every season of the key.
pub open spec fn set_conf(
    s: Seq<AnimeSeason>,
    sid: int,
    gid: int,
    off: i32,
    lang: String,
    codec: String,
    boff: i32,
) -> Seq<AnimeSeason> {
    s.map_values(
        |x: AnimeSeason|
            if season_key(x, sid, gid) {
                with_conf(x, off, lang, codec, boff)
            } else {
                x
            },
    )
}

/// Whether an item satisfies a language and codec filter: its tags must
/// contain the filter; an empty filter restricts nothing.
pub open spec fn conforms(it: AnimeSeasonItem, lang: Seq<char>, codec: Seq<char>) -> bool {
    &&& (lang.len() == 0 || contains_sub(it.mikan_parsed_language@, lang))
    &&& (codec.len() == 0 || contains_sub(it.mikan_parsed_codec@, codec))
}

/// The items left after deleting one season's non-conforming items.
pub open spec fn prune_items(
    s: Seq<AnimeSeasonItem>,
    sid: int,
    gid: int,
    lang: Seq<char>,
    codec: Seq<char>,
) -> Seq<AnimeSeasonItem>
    decreases s.len(),
{
    if s.len() == 0 {
        Seq::<AnimeSeasonItem>::empty()
    } else {
        let rest = prune_items(s.skip(1), sid, gid, lang, codec);
        if !item_key(s[0], sid, gid) || conforms(s[0], lang, codec) {
            seq![s[0]] + rest
        } else {
            rest
        }
    }
}

/// One season's items with their display numbers recomputed from the given
/// episode offset.
pub open spec fn renumber(s: Seq<AnimeSeasonItem>, sid: int, gid: int, off: int) -> Seq<
    AnimeSeasonItem,
> {
    s.map_values(
        |it: AnimeSeasonItem|
            if item_key(it, sid, gid) {
                AnimeSeasonItem { disp_episode_num: (it.mikan_parsed_episode_num + off) as i32, ..it }
            } else {
                it
            },
    )
}

/// Every parsed episode number of a sequence of items is in range.
pub open spec fn items_in_range(s: Seq<AnimeSeasonItem>) -> bool {
    forall|k: int|
        0 <= k < s.len() ==> in_range((#[trigger] s[k]).mikan_parsed_episode_num as int)
}

/// Every configured episode offset of a sequence of seasons is in range.
pub open spec fn seasons_in_range(s: Seq<AnimeSeason>) -> bool {
    forall|k: int|
        0 <= k < s.len() ==> in_range((#[trigger] s[k]).conf_tmdb_episode_offset as int)
}

/// Pruning keeps parsed episode numbers in range.
proof fn lemma_prune_in_range(
    s: Seq<AnimeSeasonItem>,
    sid: int,
    gid: int,
    lang: Seq<char>,
    codec: Seq<char>,
)
    requires
        items_in_range(s),
    ensures
        items_in_range(prune_items(s, sid, gid, lang, codec)),
    decreases s.len(),
{
    if s.len() > 0 {
        assert(items_in_range(s.skip(1)));
        lemma_prune_in_range(s.skip(1), sid, gid, lang, codec);
        let r = prune_items(s, sid, gid, lang, codec);
        let rest = prune_items(s.skip(1), sid, gid, lang, codec);
        if !item_key(s[0], sid, gid) || conforms(s[0], lang, codec) {
            assert(forall|k: int| 0 <= k < r.len() ==> r[k] == (seq![s[0]] + rest)[k]);
            assert(items_in_range(r)) by {
                assert(forall|k: int| 1 <= k < r.len() ==> r[k] == rest[k - 1]);
                assert(r[0] == s[0]);
            }
        }
    }
}

/// Renumbering keeps parsed episode numbers in range.
proof fn lemma_renumber_in_range(s: Seq<AnimeSeasonItem>, sid: int, gid: int, off: int)
    requires
        items_in_range(s),
    ensures
        items_in_range(renumber(s, sid, gid, off)),
{
    assert forall|k: int| 0 <= k < renumber(s, sid, gid, off).len() implies in_range(
        (#[trigger] renumber(s, sid, gid, off)[k]).mikan_parsed_episode_num as int,
    ) by {
        assert(in_range(s[k].mikan_parsed_episode_num as int));
    }
}

impl Library {
    /// Writes a season's configuration (episode offset, language and codec
    /// filters, canonical-episode offset), optionally deletes the items of
    /// that season that fail the new filters, and recomputes every remaining
    /// item's display number from the new offset.  Partial application is
    /// never possible: the recompute covers the season's whole item set.
    pub fn update_season_config(&mut self, season: &AnimeSeason, delete_items: bool)
        requires
            in_range(season.conf_tmdb_episode_offset as int),
            items_in_range(old(self).items@),
        ensures
            final(self).seasons@ == set_conf(
                old(self).seasons@,
                season.mikan_subject_id as int,
                season.mikan_subgroup_id as int,
                season.conf_tmdb_episode_offset,
                season.conf_language,
                season.conf_codec,
                season.conf_bangumi_episode_offset,
            ),
            final(self).items@ == renumber(
                if delete_items {
                    prune_items(
                        old(self).items@,
                        season.mikan_subject_id as int,
                        season.mikan_subgroup_id as int,
                        season.conf_language@,
                        season.conf_codec@,
                    )
                } else {
                    old(self).items@
                },
                season.mikan_subject_id as int,
                season.mikan_subgroup_id as int,
                season.conf_tmdb_episode_offset as int,
            ),
            items_in_range(final(self).items@),
    {
        let sid = season.mikan_subject_id;
        let gid = season.mikan_subgroup_id;
        let ghost sall = self.seasons@;
        let ghost target = set_conf(
            sall,
            sid as int,
            gid as int,
            season.conf_tmdb_episode_offset,
            season.conf_language,
            season.conf_codec,
            season.conf_bangumi_episode_offset,
        );

        let mut i: usize = 0;
        while i < self.seasons.len()
            invariant
                i <= sall.len(),
                self.seasons@.len() == sall.len(),
                target == set_conf(
                    sall,
                    sid as int,
                    gid as int,
                    season.conf_tmdb_episode_offset,
                    season.conf_language,
                    season.conf_codec,
                    season.conf_bangumi_episode_offset,
                ),
                forall|k: int| 0 <= k < i ==> self.seasons@[k] == target[k],
                forall|k: int| i <= k < sall.len() ==> self.seasons@[k] == sall[k],
                self.items@ == old(self).items@,
                items_in_range(self.items@),
            decreases sall.len() - i,
        {
            let sea = &self.seasons[i];
            if sea.mikan_subject_id == sid && sea.mikan_subgroup_id == gid {
                let mut updated = self.seasons[i].clone();
                updated.conf_tmdb_episode_offset = season.conf_tmdb_episode_offset;
                updated.conf_language = season.conf_language.clone();
                updated.conf_codec = season.conf_codec.clone();
                updated.conf_bangumi_episode_offset = season.conf_bangumi_episode_offset;
                self.seasons.set(i, updated);
            }
            i = i + 1;
        }
        proof {
            assert(self.seasons@ =~= target);
        }

        if delete_items {
            let ghost iall = self.items@;
            let mut out: Vec<AnimeSeasonItem> = Vec::new();
            let mut j: usize = 0;
            proof {
                assert(iall.skip(0) =~= iall);
                assert(out@ + prune_items(iall, sid as int, gid as int, season.conf_language@,
                    season.conf_codec@) =~= prune_items(iall, sid as int, gid as int,
                    season.conf_language@, season.conf_codec@));
            }
            while j < self.items.len()
                invariant
                    j <= iall.len(),
                    self.items@ == iall,
                    sid == season.mikan_subject_id,
                    gid == season.mikan_subgroup_id,
                    prune_items(iall, sid as int, gid as int, season.conf_language@,
                        season.conf_codec@) == out@ + prune_items(iall.skip(j as int), sid as int,
                        gid as int, season.conf_language@, season.conf_codec@),
                    self.seasons@ == target,
                    items_in_range(iall),
                decreases iall.len() - j,
            {
                proof {
                    assert(iall.skip(j as int)[0] == iall[j as int]);
                    assert(iall.skip(j as int).skip(1) =~= iall.skip(j as int + 1));
                }
                let it = &self.items[j];
                let is_key = it.mikan_subject_id == sid && it.mikan_subgroup_id == gid;
                let lang_ok = season.conf_language.as_str().is_empty() || str_contains(
                    it.mikan_parsed_language.as_str(),
                    season.conf_language.as_str(),
                );
                let codec_ok = season.conf_codec.as_str().is_empty() || str_contains(
                    it.mikan_parsed_codec.as_str(),
                    season.conf_codec.as_str(),
                );
                if !is_key || (lang_ok && codec_ok) {
                    out.push(it.clone());
                }
                j = j + 1;
            }
            proof {
                assert(iall.skip(j as int) =~= Seq::<AnimeSeasonItem>::empty());
                assert(out@ + Seq::<AnimeSeasonItem>::empty() =~= out@);
            }
            self.items = out;
            proof {
                lemma_prune_in_range(iall, sid as int, gid as int, season.conf_language@,
                    season.conf_codec@);
            }
        }

        let ghost base = self.items@;
        let ghost rtarget = renumber(base, sid as int, gid as int,
            season.conf_tmdb_episode_offset as int);
        let mut j: usize = 0;
        while j < self.items.len()
            invariant
                j <= base.len(),
                self.items@.len() == base.len(),
                items_in_range(base),
                in_range(season.conf_tmdb_episode_offset as int),
                sid == season.mikan_subject_id,
                gid == season.mikan_subgroup_id,
                rtarget == renumber(base, sid as int, gid as int,
                    season.conf_tmdb_episode_offset as int),
                forall|k: int| 0 <= k < j ==> self.items@[k] == rtarget[k],
                forall|k: int| j <= k < base.len() ==> self.items@[k] == base[k],
                self.seasons@ == target,
            decreases base.len() - j,
        {
            let it = &self.items[j];
            if it.mikan_subject_id == sid && it.mikan_subgroup_id == gid {
                proof {
                    assert(in_range(base[j as int].mikan_parsed_episode_num as int));
                }
                let mut updated = self.items[j].clone();
                updated.disp_episode_num = updated.mikan_parsed_episode_num
                    + season.conf_tmdb_episode_offset;
                self.items.set(j, updated);
            }
            j = j + 1;
        }
        proof {
            assert(self.items@ =~= rtarget);
            lemma_renumber_in_range(base, sid as int, gid as int,
                season.conf_tmdb_episode_offset as int);
        }
    }
}

/// Recomputing a season's display numbers gives each of its items exactly
/// the parsed number plus the new offset; an item whose display number
/// carried an old offset therefore moves by exactly the difference of the
/// offsets, and items of other seasons are untouched.  An item ingested into
/// the season afterwards gets the new offset at once.
pub proof fn lemma_offset_recompute(
    items: Seq<AnimeSeasonItem>,
    sid: int,
    gid: int,
    old_off: int,
    new_off: int,
    it: MikanItem,
    sea: AnimeSeason,
)
    requires
        items_in_range(items),
        in_range(new_off),
        sea.conf_tmdb_episode_offset as int == new_off,
        in_range(it.mikan_parsed_episode_num as int),
    ensures
        renumber(items, sid, gid, new_off).len() == items.len(),
        forall|j: int|
            0 <= j < items.len() && item_key(#[trigger] items[j], sid, gid) ==> renumber(
                items,
                sid,
                gid,
                new_off,
            )[j].disp_episode_num as int == items[j].mikan_parsed_episode_num + new_off,
        forall|j: int|
            0 <= j < items.len() && item_key(#[trigger] items[j], sid, gid)
                && items[j].disp_episode_num as int == items[j].mikan_parsed_episode_num + old_off
                ==> renumber(items, sid, gid, new_off)[j].disp_episode_num as int == items[j].disp_episode_num
                - old_off + new_off,
        forall|j: int|
            0 <= j < items.len() && !item_key(#[trigger] items[j], sid, gid) ==> renumber(
                items,
                sid,
                gid,
                new_off,
            )[j] == items[j],
        item_record(it, sea).disp_episode_num as int == it.mikan_parsed_episode_num + new_off,
{
    assert forall|j: int|
        0 <= j < items.len() && item_key(#[trigger] items[j], sid, gid) implies renumber(
        items,
        sid,
        gid,
        new_off,
    )[j].disp_episode_num as int == items[j].mikan_parsed_episode_num + new_off by {
        assert(in_range(items[j].mikan_parsed_episode_num as int));
    }
}

/// The score of a (language, codec) pair: simplified Chinese ranks over
/// traditional Chinese over Japanese (mutually exclusive, highest match
/// wins), and an AVC codec adds one.
pub open spec fn pair_rank(lang: Seq<char>, codec: Seq<char>) -> int {
    (if contains_sub(lang, "hans"@) {
        8int
    } else if contains_sub(lang, "hant"@) {
        4int
    } else if contains_sub(lang, "jpn"@) {
        2int
    } else {
        0int
    }) + (if contains_sub(codec, "avc"@) {
        1int
    } else {
        0int
    })
}

/// Whether a pair list already holds a pair with these contents.
pub open spec fn holds_pair(acc: Seq<(String, String)>, lang: Seq<char>, codec: Seq<char>) -> bool {
    exists|k: int| 0 <= k < acc.len() && (#[trigger] acc[k]).0@ == lang && acc[k].1@ == codec
}

/// The distinct (language, codec) pairs observed over a season's items, in
/// first-appearance order.
pub open spec fn distinct_pairs_from(
    items: Seq<AnimeSeasonItem>,
    i: int,
    acc: Seq<(String, String)>,
) -> Seq<(String, String)>
    decreases items.len() - i,
{
    if i < 0 || i >= items.len() {
        acc
    } else {
        let nxt = if holds_pair(acc, items[i].mikan_parsed_language@, items[i].mikan_parsed_codec@) {
            acc
        } else {
            acc.push((items[i].mikan_parsed_language, items[i].mikan_parsed_codec))
        };
        distinct_pairs_from(items, i + 1, nxt)
    }
}

/// The distinct pairs of a season's items.
pub open spec fn distinct_pairs(items: Seq<AnimeSeasonItem>) -> Seq<(String, String)> {
    distinct_pairs_from(items, 0, Seq::<(String, String)>::empty())
}

/// The best pair among those from index `i` on, starting from `cur`: a later
/// pair replaces the current one only when it ranks strictly higher, so the
/// first of equally ranked pairs wins.
pub open spec fn best_pair_from(pairs: Seq<(String, String)>, i: int, cur: (String, String)) -> (
    String,
    String,
)
    decreases pairs.len() - i,
{
    if i < 0 || i >= pairs.len() {
        cur
    } else {
        let nxt = if pair_rank(pairs[i].0@, pairs[i].1@) > pair_rank(cur.0@, cur.1@) {
            pairs[i]
        } else {
            cur
        };
        best_pair_from(pairs, i + 1, nxt)
    }
}

/// The best-ranked pair of a non-empty pair list, earliest first on ties.
pub open spec fn best_pair(pairs: Seq<(String, String)>) -> (String, String)
    recommends
        pairs.len() > 0,
{
    best_pair_from(pairs, 1, pairs[0])
}

/// What the auto-configuration pass does for one season of the snapshot: a
/// season with no items is left alone; otherwise the best observed pair
/// becomes the season's filter, its non-conforming items are deleted, and
/// the remaining items' display numbers are recomputed.
pub open spec fn auto_step(
    seasons: Seq<AnimeSeason>,
    items: Seq<AnimeSeasonItem>,
    sea: AnimeSeason,
) -> (Seq<AnimeSeason>, Seq<AnimeSeasonItem>) {
    let sid = sea.mikan_subject_id as int;
    let gid = sea.mikan_subgroup_id as int;
    let its = season_items(items, sid, gid);
    if its.len() == 0 {
        (seasons, items)
    } else {
        let best = best_pair(distinct_pairs(its));
        (
            set_conf(
                seasons,
                sid,
                gid,
                sea.conf_tmdb_episode_offset,
                best.0,
                best.1,
                sea.conf_bangumi_episode_offset,
            ),
            renumber(
                prune_items(items, sid, gid, best.0@, best.1@),
                sid,
                gid,
                sea.conf_tmdb_episode_offset as int,
            ),
        )
    }
}

/// The auto-configuration pass folded over a snapshot of the seasons.
pub open spec fn auto_spec(
    snapshot: Seq<AnimeSeason>,
    i: int,
    seasons: Seq<AnimeSeason>,
    items: Seq<AnimeSeasonItem>,
) -> (Seq<AnimeSeason>, Seq<AnimeSeasonItem>)
    decreases snapshot.len() - i,
{
    if i < 0 || i >= snapshot.len() {
        (seasons, items)
    } else {
        let stepped = auto_step(seasons, items, snapshot[i]);
        auto_spec(snapshot, i + 1, stepped.0, stepped.1)
    }
}

/// After pruning, every item of the season conforms to the filter pair.
pub proof fn lemma_prune_conforms(
    s: Seq<AnimeSeasonItem>,
    sid: int,
    gid: int,
    lang: Seq<char>,
    codec: Seq<char>,
)
    ensures
        forall|j: int|
            0 <= j < prune_items(s, sid, gid, lang, codec).len() && item_key(
                #[trigger] prune_items(s, sid, gid, lang, codec)[j],
                sid,
                gid,
            ) ==> conforms(prune_items(s, sid, gid, lang, codec)[j], lang, codec),
    decreases s.len(),
{
    if s.len() > 0 {
        lemma_prune_conforms(s.skip(1), sid, gid, lang, codec);
        let r = prune_items(s, sid, gid, lang, codec);
        let rest = prune_items(s.skip(1), sid, gid, lang, codec);
        if !item_key(s[0], sid, gid) || conforms(s[0], lang, codec) {
            assert(r == seq![s[0]] + rest);
            assert(forall|j: int| 1 <= j < r.len() ==> r[j] == rest[j - 1]);
            assert(r[0] == s[0]);
        }
    }
}

/// The chosen pair is one of the observed pairs, and no observed pair ranks
/// strictly above it.
pub proof fn lemma_best_pair_max(pairs: Seq<(String, String)>)
    requires
        pairs.len() > 0,
    ensures
        exists|k: int| 0 <= k < pairs.len() && pairs[k] == best_pair(pairs),
        forall|k: int|
            0 <= k < pairs.len() ==> pair_rank((#[trigger] pairs[k]).0@, pairs[k].1@) <= pair_rank(
                best_pair(pairs).0@,
                best_pair(pairs).1@,
            ),
{
    lemma_best_pair_from(pairs, 1, pairs[0]);
}

/// The running best of the pair scan stays in the list (or is the seed) and
/// dominates everything scanned.
proof fn lemma_best_pair_from(pairs: Seq<(String, String)>, i: int, cur: (String, String))
    requires
        0 <= i <= pairs.len(),
    ensures
        (exists|k: int| 0 <= k < pairs.len() && pairs[k] == best_pair_from(pairs, i, cur))
            || best_pair_from(pairs, i, cur) == cur,
        forall|k: int|
            i <= k < pairs.len() ==> pair_rank((#[trigger] pairs[k]).0@, pairs[k].1@) <= pair_rank(
                best_pair_from(pairs, i, cur).0@,
                best_pair_from(pairs, i, cur).1@,
            ),
        pair_rank(cur.0@, cur.1@) <= pair_rank(
            best_pair_from(pairs, i, cur).0@,
            best_pair_from(pairs, i, cur).1@,
        ),
    decreases pairs.len() - i,
{
    if i < pairs.len() {
        let nxt = if pair_rank(pairs[i].0@, pairs[i].1@) > pair_rank(cur.0@, cur.1@) {
            pairs[i]
        } else {
            cur
        };
        lemma_best_pair_from(pairs, i + 1, nxt);
    }
}

impl Library {
    /// The distinct (language, codec) pairs of the given items, in
    /// first-appearance order.
    fn collect_pairs(items: &Vec<AnimeSeasonItem>) -> (r: Vec<(String, String)>)
        ensures
            r@ == distinct_pairs(items@),
            items@.len() > 0 ==> r@.len() > 0,
    {
        let mut acc: Vec<(String, String)> = Vec::new();
        let mut i: usize = 0;
        while i < items.len()
            invariant
                i <= items@.len(),
                distinct_pairs(items@) == distinct_pairs_from(items@, i as int, acc@),
                i > 0 ==> acc@.len() > 0,
            decreases items.len() - i,
        {
            let it = &items[i];
            let mut seen = false;
            let mut k: usize = 0;
            while k < acc.len()
                invariant
                    k <= acc@.len(),
                    i < items@.len(),
                    it == items@[i as int],
                    seen ==> holds_pair(acc@, it.mikan_parsed_language@, it.mikan_parsed_codec@),
                    !seen ==> forall|m: int|
                        0 <= m < k ==> !((#[trigger] acc@[m]).0@ == it.mikan_parsed_language@
                            && acc@[m].1@ == it.mikan_parsed_codec@),
                decreases acc.len() - k,
            {
                if str_eq(acc[k].0.as_str(), it.mikan_parsed_language.as_str()) && str_eq(
                    acc[k].1.as_str(),
                    it.mikan_parsed_codec.as_str(),
                ) {
                    seen = true;
                    proof {
                        assert(acc@[k as int].0@ == it.mikan_parsed_language@);
                    }
                }
                k = k + 1;
            }
            let ghost prev = acc@;
            if !seen {
                acc.push((it.mikan_parsed_language.clone(), it.mikan_parsed_codec.clone()));
            }
            proof {
                let lv = items@[i as int].mikan_parsed_language@;
                let cv = items@[i as int].mikan_parsed_codec@;
                if seen {
                    assert(holds_pair(prev, lv, cv));
                    assert(acc@ == prev);
                } else {
                    assert(!holds_pair(prev, lv, cv));
                    assert(acc@ =~= prev.push(
                        (
                            items@[i as int].mikan_parsed_language,
                            items@[i as int].mikan_parsed_codec,
                        ),
                    ));
                }
                assert(distinct_pairs_from(items@, i as int, prev) == distinct_pairs_from(
                    items@,
                    i as int + 1,
                    acc@,
                ));
            }
            i = i + 1;
        }
        acc
    }

    /// The best-ranked pair of a non-empty pair list.
    fn pick_best_pair(pairs: &Vec<(String, String)>) -> (r: (String, String))
        requires
            pairs@.len() > 0,
        ensures
            r == best_pair(pairs@),
    {
        let mut cur = (pairs[0].0.clone(), pairs[0].1.clone());
        let mut i: usize = 1;
        proof {
            assert(cur == pairs@[0]);
        }
        while i < pairs.len()
            invariant
                1 <= i <= pairs@.len(),
                best_pair(pairs@) == best_pair_from(pairs@, i as int, cur),
            decreases pairs.len() - i,
        {
            let cand_rank = rank_of(&pairs[i].0, &pairs[i].1);
            let cur_rank = rank_of(&cur.0, &cur.1);
            if cand_rank > cur_rank {
                cur = (pairs[i].0.clone(), pairs[i].1.clone());
                proof {
                    assert(cur == pairs@[i as int]);
                }
            }
            i = i + 1;
        }
        cur
    }

    /// Infers each season's language and codec configuration from its items:
    /// the best-ranked observed pair becomes the filter, non-conforming
    /// items are deleted, and display numbers are recomputed.  A season with
    /// no items is left as it is.
    pub fn auto_season_config_clean(&mut self)
        requires
            seasons_in_range(old(self).seasons@),
            items_in_range(old(self).items@),
        ensures
            (final(self).seasons@, final(self).items@) == auto_spec(
                old(self).seasons@,
                0,
                old(self).seasons@,
                old(self).items@,
            ),
    {
        let snapshot = self.read_seasons();
        let ghost snap = snapshot@;
        let mut i: usize = 0;
        while i < snapshot.len()
            invariant
                i <= snap.len(),
                snapshot@ == snap,
                seasons_in_range(snap),
                items_in_range(self.items@),
                auto_spec(snap, 0, old(self).seasons@, old(self).items@) == auto_spec(
                    snap,
                    i as int,
                    self.seasons@,
                    self.items@,
                ),
            decreases snapshot.len() - i,
        {
            let sea = &snapshot[i];
            let ghost pre_s = self.seasons@;
            let ghost pre_i = self.items@;
            let items = self.read_season_items(sea.mikan_subject_id, sea.mikan_subgroup_id);
            if items.len() > 0 {
                let pairs = Self::collect_pairs(&items);
                let best = Self::pick_best_pair(&pairs);
                let mut conf = sea.clone();
                conf.conf_language = best.0;
                conf.conf_codec = best.1;
                proof {
                    assert(in_range(snap[i as int].conf_tmdb_episode_offset as int));
                }
                self.update_season_config(&conf, true);
                proof {
                    assert((self.seasons@, self.items@) == auto_step(pre_s, pre_i, snap[i as int]));
                }
            } else {
                proof {
                    assert((self.seasons@, self.items@) == auto_step(pre_s, pre_i, snap[i as int]));
                }
            }
            i = i + 1;
        }
    }
}

/// The rank of one (language, codec) pair.
fn rank_of(lang: &String, codec: &String) -> (r: i32)
    ensures
        r as int == pair_rank(lang@, codec@),
{
    let l = chars_of(lang.as_str());
    let c = chars_of(codec.as_str());
    let mut r: i32 = 0;
    if contains_chars(&l, &chars_of("hans")) {
        r = 8;
    } else if contains_chars(&l, &chars_of("hant")) {
        r = 4;
    } else if contains_chars(&l, &chars_of("jpn")) {
        r = 2;
    }
    if contains_chars(&c, &chars_of("avc")) {
        r = r + 1;
    }
    r
}

/// Where the first season with a key stands, what it is, and what a missing
/// index means.
proof fn lemma_season_index_props(s: Seq<AnimeSeason>, sid: int, gid: int)
    ensures
        season_index(s, sid, gid) >= 0 ==> {
            &&& season_index(s, sid, gid) < s.len()
            &&& season_key(s[season_index(s, sid, gid)], sid, gid)
            &&& forall|m: int|
                0 <= m < season_index(s, sid, gid) ==> !season_key(#[trigger] s[m], sid, gid)
        },
        season_index(s, sid, gid) < 0 ==> forall|m: int|
            0 <= m < s.len() ==> !season_key(#[trigger] s[m], sid, gid),
    decreases s.len(),
{
    if s.len() > 0 {
        lemma_season_index_props(s.skip(1), sid, gid);
        let idx = season_index(s, sid, gid);
        if !season_key(s[0], sid, gid) {
            let sub = season_index(s.skip(1), sid, gid);
            if sub >= 0 {
                assert(s.skip(1)[sub] == s[sub + 1]);
                assert forall|m: int| 0 <= m < idx implies !season_key(
                    #[trigger] s[m],
                    sid,
                    gid,
                ) by {
                    if m > 0 {
                        assert(s.skip(1)[m - 1] == s[m]);
                        assert(!season_key(s.skip(1)[m - 1], sid, gid));
                    }
                }
            } else {
                assert forall|m: int| 0 <= m < s.len() implies !season_key(
                    #[trigger] s[m],
                    sid,
                    gid,
                ) by {
                    if m > 0 {
                        assert(s.skip(1)[m - 1] == s[m]);
                        assert(!season_key(s.skip(1)[m - 1], sid, gid));
                    }
                }
            }
        }
    }
}

/// After a season upsert, its key finds exactly the new record, and every
/// other key finds what it found before.
pub proof fn lemma_upsert_season_find(s: Seq<AnimeSeason>, sea: AnimeSeason)
    ensures
        find_season(
            upsert_season(s, sea),
            sea.mikan_subject_id as int,
            sea.mikan_subgroup_id as int,
        ) == Some(sea),
        upsert_season(s, sea).len() <= s.len() + 1,
        forall|k: int|
            0 <= k < upsert_season(s, sea).len() ==> (#[trigger] upsert_season(s, sea)[k] == sea
                || exists|m: int| 0 <= m < s.len() && s[m] == upsert_season(s, sea)[k]),
{
    let sid = sea.mikan_subject_id as int;
    let gid = sea.mikan_subgroup_id as int;
    let idx = season_index(s, sid, gid);
    lemma_season_index_props(s, sid, gid);
    if idx >= 0 {
        let t = s.update(idx, sea);
        assert(forall|m: int| 0 <= m < idx ==> !season_key(#[trigger] t[m], sid, gid));
        lemma_season_index_char(t, sid, gid, idx);
        assert forall|k: int| 0 <= k < t.len() implies (#[trigger] t[k] == sea || exists|m: int|
            0 <= m < s.len() && s[m] == t[k]) by {
            if k != idx {
                assert(s[k] == t[k]);
            }
        }
    } else {
        let t = s.push(sea);
        assert(forall|m: int| 0 <= m < s.len() ==> !season_key(#[trigger] t[m], sid, gid));
        lemma_season_index_char(t, sid, gid, s.len() as int);
        assert forall|k: int| 0 <= k < t.len() implies (#[trigger] t[k] == sea || exists|m: int|
            0 <= m < s.len() && s[m] == t[k]) by {
            if k < s.len() {
                assert(s[k] == t[k]);
            }
        }
    }
}

/// A found season is one of the stored seasons.
proof fn lemma_find_season_element(s: Seq<AnimeSeason>, sid: int, gid: int)
    ensures
        find_season(s, sid, gid) matches Some(x) ==> exists|k: int| 0 <= k < s.len() && s[k] == x,
    decreases s.len(),
{
    if s.len() > 0 {
        if season_key(s[0], sid, gid) {
            assert(s[0] == find_season(s, sid, gid)->Some_0);
        } else {
            lemma_find_season_element(s.skip(1), sid, gid);
            if find_season(s, sid, gid) is Some {
                let x = find_season(s, sid, gid)->Some_0;
                let k = choose|k: int| 0 <= k < s.skip(1).len() && s.skip(1)[k] == x;
                assert(s[k + 1] == x);
            }
        }
    }
}

/// One reconciliation step: what ingesting a single resolved release does to
/// the library, given the cached subject mappings.  A season already present
/// takes the item if the item passes its filters; a missing season is first
/// built from the cached subject mapping; without a cached mapping the
/// release is skipped.
pub open spec fn step_rel(
    s0: Seq<AnimeSeason>,
    i0: Seq<AnimeSeasonItem>,
    subjects: Seq<MikanSubject>,
    it: MikanItem,
    s1: Seq<AnimeSeason>,
    i1: Seq<AnimeSeasonItem>,
) -> bool {
    let sid = it.mikan_subject_id as int;
    let gid = it.mikan_subgroup_id as int;
    match find_season(s0, sid, gid) {
        Some(sea) => {
            if (sea.conf_language@.len() != 0 && !contains_sub(
                it.mikan_parsed_language@,
                sea.conf_language@,
            )) || (sea.conf_codec@.len() != 0 && !contains_sub(
                it.mikan_parsed_codec@,
                sea.conf_codec@,
            )) {
                s1 == s0 && i1 == i0
            } else {
                s1 == s0 && i1 == upsert_item(i0, item_record(it, sea))
            }
        },
        None => match find_subject(subjects, sid) {
            Some(sub) => exists|sea: AnimeSeason|
                {
                    &&& #[trigger] season_matches_subject(sea, it, sub)
                    &&& s1 == upsert_season(s0, sea)
                    &&& i1 == upsert_item(i0, item_record(it, sea))
                },
            None => s1 == s0 && i1 == i0,
        },
    }
}

/// Reconciliation of a list of resolved releases, front to back: each
/// release is ingested by one step into the state the previous ones left.
pub open spec fn update_rel(
    s0: Seq<AnimeSeason>,
    i0: Seq<AnimeSeasonItem>,
    subjects: Seq<MikanSubject>,
    feed: Seq<MikanItem>,
    s1: Seq<AnimeSeason>,
    i1: Seq<AnimeSeasonItem>,
) -> bool
    decreases feed.len(),
{
    if feed.len() == 0 {
        s1 == s0 && i1 == i0
    } else {
        exists|s2: Seq<AnimeSeason>, i2: Seq<AnimeSeasonItem>|
            {
                &&& #[trigger] step_rel(s0, i0, subjects, feed[0], s2, i2)
                &&& update_rel(s2, i2, subjects, feed.skip(1), s1, i1)
            }
    }
}

/// Extending the ingested list by one release extends the reconciliation
/// relation by one step.
proof fn lemma_update_rel_snoc(
    s0: Seq<AnimeSeason>,
    i0: Seq<AnimeSeasonItem>,
    subjects: Seq<MikanSubject>,
    feed: Seq<MikanItem>,
    s1: Seq<AnimeSeason>,
    i1: Seq<AnimeSeasonItem>,
    it: MikanItem,
    s2: Seq<AnimeSeason>,
    i2: Seq<AnimeSeasonItem>,
)
    requires
        update_rel(s0, i0, subjects, feed, s1, i1),
        step_rel(s1, i1, subjects, it, s2, i2),
    ensures
        update_rel(s0, i0, subjects, feed.push(it), s2, i2),
    decreases feed.len(),
{
    let ext = feed.push(it);
    assert(ext[0] == if feed.len() == 0 {
        it
    } else {
        feed[0]
    });
    if feed.len() == 0 {
        assert(ext.skip(1) =~= Seq::<MikanItem>::empty());
        assert(step_rel(s0, i0, subjects, it, s2, i2));
        assert(update_rel(s2, i2, subjects, ext.skip(1), s2, i2));
    } else {
        let (sm, im) = choose|sm: Seq<AnimeSeason>, im: Seq<AnimeSeasonItem>|
            {
                &&& #[trigger] step_rel(s0, i0, subjects, feed[0], sm, im)
                &&& update_rel(sm, im, subjects, feed.skip(1), s1, i1)
            };
        lemma_update_rel_snoc(sm, im, subjects, feed.skip(1), s1, i1, it, s2, i2);
        assert(ext.skip(1) =~= feed.skip(1).push(it));
        assert(step_rel(s0, i0, subjects, ext[0], sm, im));
    }
}

/// The season a release and its cached subject mapping give rise to.
fn build_season(it: &MikanItem, sub: &MikanSubject) -> (sea: AnimeSeason)
    ensures
        season_matches_subject(sea, *it, *sub),
        sea.mikan_subject_id == it.mikan_subject_id,
        sea.mikan_subgroup_id == it.mikan_subgroup_id,
        sea.conf_tmdb_episode_offset == 0,
{
    let disp_series_name = if sub.tmdb_series_name.as_str().is_empty() {
        sub.bangumi_subject_name.clone()
    } else {
        sub.tmdb_series_name.clone()
    };
    let disp_season_num = if sub.tmdb_season_num == -1 {
        sub.bangumi_season_num
    } else {
        sub.tmdb_season_num
    };
    let disp_season_name = if sub.tmdb_season_name.as_str().is_empty() {
        let mut v = chars_of("Season ");
        let num = i32_to_string(disp_season_num);
        let mut d = chars_of(num.as_str());
        v.append(&mut d);
        string_from(&v)
    } else {
        sub.tmdb_season_name.clone()
    };
    AnimeSeason {
        mikan_subject_id: it.mikan_subject_id,
        mikan_subgroup_id: it.mikan_subgroup_id,
        mikan_subject_name: sub.bangumi_subject_name.clone(),
        mikan_subject_image: sub.mikan_subject_image_url.clone(),
        bangumi_subject_id: sub.bangumi_subject_id,
        bangumi_subject_name: sub.bangumi_subject_name.clone(),
        bangumi_season_num: sub.bangumi_season_num,
        bangumi_subject_image: sub.bangumi_subject_image_url.clone(),
        tmdb_series_id: sub.tmdb_series_id,
        tmdb_series_name: sub.tmdb_series_name.clone(),
        tmdb_season_num: sub.tmdb_season_num,
        tmdb_season_name: sub.tmdb_season_name.clone(),
        bangumi_to_tmdb_episode_offset: sub.bangumi_to_tmdb_episode_offset,
        disp_series_name,
        disp_season_name,
        disp_subgroup_name: String::from_str("字幕组名称"),
        disp_season_num,
        conf_tmdb_episode_offset: 0,
        conf_language: String::new(),
        conf_codec: String::new(),
        conf_season_num: -1,
        conf_bangumi_episode_offset: 0,
    }
}

impl Library {
    /// Merges a batch of resolved releases into the library: each release in
    /// order is matched to its season (created from the cached subject
    /// mapping when missing), filtered by the season's language and codec
    /// configuration, and upserted with its display episode number.  A
    /// release whose subject has no cached mapping is skipped.  Re-ingesting
    /// the same resolved release leaves the same stored row: the steps are
    /// upserts.
    pub fn update_library(&mut self, items: &Vec<MikanItem>, cache: &RssCache)
        requires
            forall|k: int|
                0 <= k < items@.len() ==> in_range(
                    (#[trigger] items@[k]).mikan_parsed_episode_num as int,
                ),
            seasons_in_range(old(self).seasons@),
        ensures
            update_rel(
                old(self).seasons@,
                old(self).items@,
                cache.subjects@,
                items@,
                final(self).seasons@,
                final(self).items@,
            ),
            seasons_in_range(final(self).seasons@),
    {
        let ghost s0 = self.seasons@;
        let ghost i0 = self.items@;
        let ghost subj = cache.subjects@;
        let mut j: usize = 0;
        proof {
            assert(items@.take(0) =~= Seq::<MikanItem>::empty());
        }
        while j < items.len()
            invariant
                j <= items@.len(),
                forall|k: int|
                    0 <= k < items@.len() ==> in_range(
                        (#[trigger] items@[k]).mikan_parsed_episode_num as int,
                    ),
                subj == cache.subjects@,
                seasons_in_range(self.seasons@),
                update_rel(s0, i0, subj, items@.take(j as int), self.seasons@, self.items@),
            decreases items.len() - j,
        {
            let it = &items[j];
            let ghost pre_s = self.seasons@;
            let ghost pre_i = self.items@;
            match self.read_season_info(it.mikan_subject_id, it.mikan_subgroup_id) {
                Some(sea) => {
                    let lang_mismatch = !sea.conf_language.as_str().is_empty() && !str_contains(
                        it.mikan_parsed_language.as_str(),
                        sea.conf_language.as_str(),
                    );
                    let codec_mismatch = !sea.conf_codec.as_str().is_empty() && !str_contains(
                        it.mikan_parsed_codec.as_str(),
                        sea.conf_codec.as_str(),
                    );
                    if !lang_mismatch && !codec_mismatch {
                        proof {
                            lemma_find_season_element(
                                pre_s,
                                it.mikan_subject_id as int,
                                it.mikan_subgroup_id as int,
                            );
                        }
                        self.create_item(it);
                    }
                    proof {
                        assert(step_rel(pre_s, pre_i, subj, items@[j as int], self.seasons@,
                            self.items@));
                    }
                },
                None => {
                    match cache.fetch_mikan_subject_info(it.mikan_subject_id) {
                        Some(sub) => {
                            let sea = build_season(it, &sub);
                            self.create_season(&sea);
                            proof {
                                lemma_upsert_season_find(pre_s, sea);
                                assert(seasons_in_range(self.seasons@)) by {
                                    assert forall|k: int|
                                        0 <= k < self.seasons@.len() implies in_range(
                                        (#[trigger] self.seasons@[k]).conf_tmdb_episode_offset
                                            as int,
                                    ) by {
                                        if self.seasons@[k] != sea {
                                            let m = choose|m: int|
                                                0 <= m < pre_s.len() && pre_s[m]
                                                    == self.seasons@[k];
                                            assert(in_range(
                                                pre_s[m].conf_tmdb_episode_offset as int,
                                            ));
                                        }
                                    }
                                }
                            }
                            self.create_item(it);
                            proof {
                                assert(step_rel(pre_s, pre_i, subj, items@[j as int],
                                    self.seasons@, self.items@));
                            }
                        },
                        None => {
                            proof {
                                assert(step_rel(pre_s, pre_i, subj, items@[j as int],
                                    self.seasons@, self.items@));
                            }
                        },
                    }
                },
            }
            proof {
                lemma_update_rel_snoc(s0, i0, subj, items@.take(j as int), pre_s, pre_i,
                    items@[j as int], self.seasons@, self.items@);
                assert(items@.take(j as int).push(items@[j as int]) =~= items@.take(j as int + 1));
            }
            j = j + 1;
        }
        proof {
            assert(items@.take(items@.len() as int) =~= items@);
        }
    }
}

/// Where the first item with an identity stands, what it is, and what a
/// missing index means.
proof fn lemma_item_index_props(s: Seq<AnimeSeasonItem>, uuid: Seq<char>)
    ensures
        item_index(s, uuid) >= 0 ==> {
            &&& item_index(s, uuid) < s.len()
            &&& s[item_index(s, uuid)].mikan_item_uuid@ == uuid
            &&& forall|m: int|
                0 <= m < item_index(s, uuid) ==> (#[trigger] s[m]).mikan_item_uuid@ != uuid
        },
        item_index(s, uuid) < 0 ==> forall|m: int|
            0 <= m < s.len() ==> (#[trigger] s[m]).mikan_item_uuid@ != uuid,
    decreases s.len(),
{
    if s.len() > 0 {
        lemma_item_index_props(s.skip(1), uuid);
        let idx = item_index(s, uuid);
        if s[0].mikan_item_uuid@ != uuid {
            let sub = item_index(s.skip(1), uuid);
            if sub >= 0 {
                assert(s.skip(1)[sub] == s[sub + 1]);
                assert forall|m: int| 0 <= m < idx implies (
                #[trigger] s[m]).mikan_item_uuid@ != uuid by {
                    if m > 0 {
                        assert(s.skip(1)[m - 1] == s[m]);
                        assert(s.skip(1)[m - 1].mikan_item_uuid@ != uuid);
                    }
                }
            } else {
                assert forall|m: int| 0 <= m < s.len() implies (
                #[trigger] s[m]).mikan_item_uuid@ != uuid by {
                    if m > 0 {
                        assert(s.skip(1)[m - 1] == s[m]);
                        assert(s.skip(1)[m - 1].mikan_item_uuid@ != uuid);
                    }
                }
            }
        }
    }
}

/// Storing the same row a second time changes nothing: re-processing a
/// resolved release leaves exactly the row one pass stored.
pub proof fn lemma_upsert_item_idempotent(s: Seq<AnimeSeasonItem>, it: AnimeSeasonItem)
    ensures
        upsert_item(upsert_item(s, it), it) == upsert_item(s, it),
{
    let uuid = it.mikan_item_uuid@;
    let s1 = upsert_item(s, it);
    lemma_item_index_props(s, uuid);
    let idx0 = item_index(s, uuid);
    if idx0 >= 0 {
        assert(s1 == s.update(idx0, it));
        assert(forall|m: int| 0 <= m < idx0 ==> #[trigger] s1[m] == s[m]);
        assert(s1[idx0] == it);
        assert(forall|m: int|
            0 <= m < idx0 ==> (#[trigger] s1[m]).mikan_item_uuid@ != uuid);
        lemma_item_index_char(s1, uuid, idx0);
        assert(item_index(s1, uuid) == idx0);
        assert(s1.update(idx0, it) =~= s1);
    } else {
        assert(s1 == s.push(it));
        assert(forall|m: int| 0 <= m < s.len() ==> #[trigger] s1[m] == s[m]);
        assert(s1[s.len() as int] == it);
        assert(forall|m: int|
            0 <= m < s.len() ==> (#[trigger] s1[m]).mikan_item_uuid@ != uuid);
        lemma_item_index_char(s1, uuid, s.len() as int);
        assert(item_index(s1, uuid) == s.len());
        assert(s1.update(s.len() as int, it) =~= s1);
    }
}

/// With one observed pair marked simplified Chinese and AVC and the other
/// marked traditional Chinese without AVC, the auto-configuration choice is
/// the first pair: its score of nine beats the other's four.
pub proof fn lemma_auto_choice_example(p0: (String, String), p1: (String, String))
    requires
        contains_sub(p0.0@, "hans"@),
        contains_sub(p0.1@, "avc"@),
        !contains_sub(p1.0@, "hans"@),
        contains_sub(p1.0@, "hant"@),
        !contains_sub(p1.1@, "avc"@),
    ensures
        best_pair(seq![p0, p1]) == p0,
{
    let pairs = seq![p0, p1];
    assert(pairs[0] == p0);
    assert(pairs[1] == p1);
    assert(pair_rank(p0.0@, p0.1@) == 9);
    assert(pair_rank(p1.0@, p1.1@) == 4);
    assert(best_pair_from(pairs, 2, p0) == p0);
    assert(best_pair_from(pairs, 1, p0) == p0);
}

/// Ingesting the same resolved release a second time changes nothing:
/// reconciliation steps are upserts, so re-processing a batch leaves every
/// season and item row as the first pass left it.
pub proof fn lemma_step_rel_idempotent(
    s0: Seq<AnimeSeason>,
    i0: Seq<AnimeSeasonItem>,
    subjects: Seq<crate::cache_store::MikanSubject>,
    it: MikanItem,
    s1: Seq<AnimeSeason>,
    i1: Seq<AnimeSeasonItem>,
    s2: Seq<AnimeSeason>,
    i2: Seq<AnimeSeasonItem>,
)
    requires
        step_rel(s0, i0, subjects, it, s1, i1),
        step_rel(s1, i1, subjects, it, s2, i2),
    ensures
        s2 == s1,
        i2 == i1,
{
    let sid = it.mikan_subject_id as int;
    let gid = it.mikan_subgroup_id as int;
    match find_season(s0, sid, gid) {
        Some(sea) => {
            assert(s1 == s0);
            if (sea.conf_language@.len() != 0 && !contains_sub(
                it.mikan_parsed_language@,
                sea.conf_language@,
            )) || (sea.conf_codec@.len() != 0 && !contains_sub(
                it.mikan_parsed_codec@,
                sea.conf_codec@,
            )) {
                assert(i1 == i0);
            } else {
                lemma_upsert_item_idempotent(i0, item_record(it, sea));
            }
        },
        None => {
            match find_subject(subjects, sid) {
                Some(sub) => {
                    let sea = choose|sea: AnimeSeason|
                        {
                            &&& #[trigger] season_matches_subject(sea, it, sub)
                            &&& s1 == upsert_season(s0, sea)
                            &&& i1 == upsert_item(i0, item_record(it, sea))
                        };
                    lemma_upsert_season_find(s0, sea);
                    assert(find_season(s1, sid, gid) == Some(sea));
                    assert(sea.conf_language@.len() == 0);
                    assert(sea.conf_codec@.len() == 0);
                    lemma_upsert_item_idempotent(i0, item_record(it, sea));
                },
                None => {
                },
            }
        },
    }
}

} // verus!
