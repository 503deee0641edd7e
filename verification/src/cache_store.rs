//! The resolution cache: per-release resolution results, per-subject
//! canonical mappings, and per-subject episode lists.
//!
//! A release, once present, is never re-resolved; a subject mapping is
//! resolved once and kept; a subject's episode list is replaced whole.
//! Look-ups find the first entry with the key, and upserts replace that
//! entry in place.

use vstd::prelude::*;

verus! {

/// A release announcement, together with everything resolution filled in.
/// The identity is `mikan_item_uuid`, the trailing path segment of the
/// release's detail-page address.
pub struct MikanItem {
    /// The release identity.
    pub mikan_item_uuid: String,
    /// The feed-scoped subject the release belongs to.
    pub mikan_subject_id: i32,
    /// The feed's name for that subject.
    pub mikan_subject_name: String,
    /// The feed-scoped release group.
    pub mikan_subgroup_id: i32,
    /// The raw release title.
    pub mikan_item_title: String,
    /// The magnet locator of the release.
    pub mikan_item_magnet_link: String,
    /// When the torrent was published.
    pub mikan_item_pub_date: String,
    /// The series name from the secondary catalog.
    pub tmdb_series_name: String,
    /// The season name from the secondary catalog.
    pub tmdb_season_name: String,
    /// The season number from the secondary catalog, or `-1`.
    pub tmdb_parsed_season_num: i32,
    /// The season number from the community catalog, or `-1`.
    pub bangumi_parsed_season_num: i32,
    /// The episode number parsed from the title, or `-1`.
    pub mikan_parsed_episode_num: i32,
    /// Comma-joined language tags parsed from the title.
    pub mikan_parsed_language: String,
    /// Comma-joined codec tags parsed from the title.
    pub mikan_parsed_codec: String,
    /// The canonical episode this release resolved to, or `-1`.
    pub bangumi_parsed_episode_id: i32,
    /// The canonical episode's raw index, or `-1`.
    pub bangumi_parsed_episode_ep: i32,
    /// The canonical episode's display index, as a decimal string.
    pub bangumi_parsed_episode_sort: String,
}

/// The cached canonical mapping of one feed subject.
pub struct MikanSubject {
    /// The feed-scoped subject.
    pub mikan_subject_id: i32,
    /// The feed's cover image for the subject.
    pub mikan_subject_image_url: String,
    /// The community-catalog subject it maps to, or `-1`.
    pub bangumi_subject_id: i32,
    /// The community catalog's name for it.
    pub bangumi_subject_name: String,
    /// The season number derived from the community catalog, or `-1`.
    pub bangumi_season_num: i32,
    /// The community catalog's cover image.
    pub bangumi_subject_image_url: String,
    /// The secondary-catalog series, or `-1`.
    pub tmdb_series_id: i32,
    /// The secondary catalog's series name.
    pub tmdb_series_name: String,
    /// The secondary catalog's season number, or `-1`.
    pub tmdb_season_num: i32,
    /// The secondary catalog's season name.
    pub tmdb_season_name: String,
    /// Offset between canonical and secondary episode numbering.
    pub bangumi_to_tmdb_episode_offset: i32,
}

/// One canonical episode of a subject.
pub struct BangumiEpisode {
    /// The canonical subject the episode belongs to.
    pub subject_id: i32,
    /// The canonical episode identity.
    pub episode_id: i32,
    /// Main story, special, opening, ending or other.
    pub episode_type: i32,
    /// The raw index.
    pub episode_ep: i32,
    /// The display index, as a decimal string (it may be fractional).
    pub episode_sort: String,
    /// The episode's name.
    pub episode_name: String,
    /// The episode's localized name.
    pub episode_name_cn: String,
    /// The air date.
    pub episode_airdate: String,
}

impl Clone for MikanItem {
    /// An exact copy of the release.
    fn clone(&self) -> (r: Self)
        ensures
            r == *self,
    {
        MikanItem {
            mikan_item_uuid: self.mikan_item_uuid.clone(),
            mikan_subject_id: self.mikan_subject_id,
            mikan_subject_name: self.mikan_subject_name.clone(),
            mikan_subgroup_id: self.mikan_subgroup_id,
            mikan_item_title: self.mikan_item_title.clone(),
            mikan_item_magnet_link: self.mikan_item_magnet_link.clone(),
            mikan_item_pub_date: self.mikan_item_pub_date.clone(),
            tmdb_series_name: self.tmdb_series_name.clone(),
            tmdb_season_name: self.tmdb_season_name.clone(),
            tmdb_parsed_season_num: self.tmdb_parsed_season_num,
            bangumi_parsed_season_num: self.bangumi_parsed_season_num,
            mikan_parsed_episode_num: self.mikan_parsed_episode_num,
            mikan_parsed_language: self.mikan_parsed_language.clone(),
            mikan_parsed_codec: self.mikan_parsed_codec.clone(),
            bangumi_parsed_episode_id: self.bangumi_parsed_episode_id,
            bangumi_parsed_episode_ep: self.bangumi_parsed_episode_ep,
            bangumi_parsed_episode_sort: self.bangumi_parsed_episode_sort.clone(),
        }
    }
}

impl Clone for MikanSubject {
    /// An exact copy of the mapping.
    fn clone(&self) -> (r: Self)
        ensures
            r == *self,
    {
        MikanSubject {
            mikan_subject_id: self.mikan_subject_id,
            mikan_subject_image_url: self.mikan_subject_image_url.clone(),
            bangumi_subject_id: self.bangumi_subject_id,
            bangumi_subject_name: self.bangumi_subject_name.clone(),
            bangumi_season_num: self.bangumi_season_num,
            bangumi_subject_image_url: self.bangumi_subject_image_url.clone(),
            tmdb_series_id: self.tmdb_series_id,
            tmdb_series_name: self.tmdb_series_name.clone(),
            tmdb_season_num: self.tmdb_season_num,
            tmdb_season_name: self.tmdb_season_name.clone(),
            bangumi_to_tmdb_episode_offset: self.bangumi_to_tmdb_episode_offset,
        }
    }
}

impl Clone for BangumiEpisode {
    /// An exact copy of the episode.
    fn clone(&self) -> (r: Self)
        ensures
            r == *self,
    {
        BangumiEpisode {
            subject_id: self.subject_id,
            episode_id: self.episode_id,
            episode_type: self.episode_type,
            episode_ep: self.episode_ep,
            episode_sort: self.episode_sort.clone(),
            episode_name: self.episode_name.clone(),
            episode_name_cn: self.episode_name_cn.clone(),
            episode_airdate: self.episode_airdate.clone(),
        }
    }
}

/// The first cached release with the given identity.
pub open spec fn find_item(s: Seq<MikanItem>, uuid: Seq<char>) -> Option<MikanItem>
    decreases s.len(),
{
    if s.len() == 0 {
        None
    } else if s[0].mikan_item_uuid@ == uuid {
        Some(s[0])
    } else {
        find_item(s.skip(1), uuid)
    }
}

/// The first cached subject mapping with the given feed-subject id.
pub open spec fn find_subject(s: Seq<MikanSubject>, id: int) -> Option<MikanSubject>
    decreases s.len(),
{
    if s.len() == 0 {
        None
    } else if s[0].mikan_subject_id == id {
        Some(s[0])
    } else {
        find_subject(s.skip(1), id)
    }
}

/// The first cached episode with the given episode id.
pub open spec fn find_episode(s: Seq<BangumiEpisode>, id: int) -> Option<BangumiEpisode>
    decreases s.len(),
{
    if s.len() == 0 {
        None
    } else if s[0].episode_id == id {
        Some(s[0])
    } else {
        find_episode(s.skip(1), id)
    }
}

/// The index of the first cached episode with the given id, or a negative
/// number.
pub open spec fn episode_index(s: Seq<BangumiEpisode>, id: int) -> int
    decreases s.len(),
{
    if s.len() == 0 {
        -1
    } else if s[0].episode_id == id {
        0
    } else if episode_index(s.skip(1), id) >= 0 {
        1 + episode_index(s.skip(1), id)
    } else {
        -1
    }
}

/// Upserting an episode: the first episode with its id is replaced, or the
/// episode is appended when the id is new.
pub open spec fn upsert_episode(s: Seq<BangumiEpisode>, e: BangumiEpisode) -> Seq<BangumiEpisode> {
    let i = episode_index(s, e.episode_id as int);
    if i >= 0 {
        s.update(i, e)
    } else {
        s.push(e)
    }
}

/// When the first `k` entries miss the id, the first hit at `k` (or none at
/// all) decides the episode index.
proof fn lemma_episode_index_char(s: Seq<BangumiEpisode>, id: int, k: int)
    requires
        0 <= k <= s.len(),
        forall|m: int| 0 <= m < k ==> (#[trigger] s[m]).episode_id != id,
    ensures
        k < s.len() && s[k].episode_id == id ==> episode_index(s, id) == k,
        k == s.len() ==> episode_index(s, id) == -1,
    decreases k,
{
    if s.len() > 0 {
        if k == 0 {
        } else {
            assert(forall|m: int|
                0 <= m < k - 1 ==> (#[trigger] s.skip(1)[m]).episode_id != id) by {
                assert(forall|m: int| 0 <= m < k - 1 ==> s.skip(1)[m] == s[m + 1]);
            }
            lemma_episode_index_char(s.skip(1), id, k - 1);
        }
    }
}

/// The cached episodes of one subject, in cache order.
pub open spec fn episodes_of(s: Seq<BangumiEpisode>, subject_id: int) -> Seq<BangumiEpisode>
    decreases s.len(),
{
    if s.len() == 0 {
        Seq::<BangumiEpisode>::empty()
    } else {
        let rest = episodes_of(s.skip(1), subject_id);
        if s[0].subject_id == subject_id {
            seq![s[0]] + rest
        } else {
            rest
        }
    }
}

/// Of a list of announcements, those whose identity is not yet cached, in
/// list order.
pub open spec fn uncached_spec(cache: Seq<MikanItem>, list: Seq<MikanItem>) -> Seq<MikanItem>
    decreases list.len(),
{
    if list.len() == 0 {
        Seq::<MikanItem>::empty()
    } else {
        let rest = uncached_spec(cache, list.skip(1));
        if find_item(cache, list[0].mikan_item_uuid@) is None {
            seq![list[0]] + rest
        } else {
            rest
        }
    }
}

/// The cached resolutions of a list of announcements: for each announcement
/// whose identity is cached, the cached release, in list order.
pub open spec fn fetch_spec(cache: Seq<MikanItem>, list: Seq<MikanItem>) -> Seq<MikanItem>
    decreases list.len(),
{
    if list.len() == 0 {
        Seq::<MikanItem>::empty()
    } else {
        let rest = fetch_spec(cache, list.skip(1));
        match find_item(cache, list[0].mikan_item_uuid@) {
            Some(c) => seq![c] + rest,
            None => rest,
        }
    }
}

/// The resolution cache.
pub struct RssCache {
    /// Resolved releases, keyed by release identity.
    pub items: Vec<MikanItem>,
    /// Canonical subject mappings, keyed by feed-subject id.
    pub subjects: Vec<MikanSubject>,
    /// Canonical episodes, keyed by episode id.
    pub episodes: Vec<BangumiEpisode>,
}

/// Updating the first entry that carries a key leaves every other key's
/// look-up unchanged and makes the key find the new entry.
proof fn lemma_find_item_update(s: Seq<MikanItem>, i: int, it: MikanItem, u: Seq<char>)
    requires
        0 <= i < s.len(),
        s[i].mikan_item_uuid@ == it.mikan_item_uuid@,
        forall|k: int| 0 <= k < i ==> (#[trigger] s[k]).mikan_item_uuid@ != it.mikan_item_uuid@,
    ensures
        find_item(s.update(i, it), it.mikan_item_uuid@) == Some(it),
        u != it.mikan_item_uuid@ ==> find_item(s.update(i, it), u) == find_item(s, u),
    decreases i,
{
    let t = s.update(i, it);
    if i == 0 {
        assert(t[0] == it);
        assert(t.skip(1) =~= s.skip(1));
    } else {
        assert(t[0] == s[0]);
        assert(s[0].mikan_item_uuid@ != it.mikan_item_uuid@);
        assert(t.skip(1) =~= s.skip(1).update(i - 1, it));
        lemma_find_item_update(s.skip(1), i - 1, it, u);
    }
}

/// Appending an entry whose key is absent leaves every other key's look-up
/// unchanged and makes the key find the new entry.
proof fn lemma_find_item_push(s: Seq<MikanItem>, it: MikanItem, u: Seq<char>)
    requires
        find_item(s, it.mikan_item_uuid@) is None,
    ensures
        find_item(s.push(it), it.mikan_item_uuid@) == Some(it),
        u != it.mikan_item_uuid@ ==> find_item(s.push(it), u) == find_item(s, u),
    decreases s.len(),
{
    let t = s.push(it);
    if s.len() == 0 {
        assert(t[0] == it);
        assert(t.skip(1) =~= Seq::<MikanItem>::empty());
        if u != it.mikan_item_uuid@ {
            assert(find_item(t, u) is None);
            assert(find_item(s, u) is None);
        }
    } else {
        assert(t[0] == s[0]);
        assert(t.skip(1) =~= s.skip(1).push(it));
        lemma_find_item_push(s.skip(1), it, u);
        if u != it.mikan_item_uuid@ {
            if s[0].mikan_item_uuid@ == u {
                assert(find_item(t, u) == Some(s[0]));
                assert(find_item(s, u) == Some(s[0]));
            } else {
                assert(find_item(t, u) == find_item(t.skip(1), u));
                assert(find_item(s, u) == find_item(s.skip(1), u));
            }
        }
    }
}

/// As `lemma_find_item_update`, for subject mappings.
proof fn lemma_find_subject_update(s: Seq<MikanSubject>, i: int, it: MikanSubject, u: int)
    requires
        0 <= i < s.len(),
        s[i].mikan_subject_id == it.mikan_subject_id,
        forall|k: int| 0 <= k < i ==> (#[trigger] s[k]).mikan_subject_id != it.mikan_subject_id,
    ensures
        find_subject(s.update(i, it), it.mikan_subject_id as int) == Some(it),
        u != it.mikan_subject_id as int ==> find_subject(s.update(i, it), u) == find_subject(s, u),
    decreases i,
{
    let t = s.update(i, it);
    if i == 0 {
        assert(t[0] == it);
        assert(t.skip(1) =~= s.skip(1));
    } else {
        assert(t[0] == s[0]);
        assert(t.skip(1) =~= s.skip(1).update(i - 1, it));
        lemma_find_subject_update(s.skip(1), i - 1, it, u);
    }
}

/// As `lemma_find_item_push`, for subject mappings.
proof fn lemma_find_subject_push(s: Seq<MikanSubject>, it: MikanSubject, u: int)
    requires
        find_subject(s, it.mikan_subject_id as int) is None,
    ensures
        find_subject(s.push(it), it.mikan_subject_id as int) == Some(it),
        u != it.mikan_subject_id as int ==> find_subject(s.push(it), u) == find_subject(s, u),
    decreases s.len(),
{
    let t = s.push(it);
    if s.len() == 0 {
        assert(t[0] == it);
        assert(t.skip(1) =~= Seq::<MikanSubject>::empty());
        if u != it.mikan_subject_id as int {
            assert(find_subject(t, u) is None);
            assert(find_subject(s, u) is None);
        }
    } else {
        assert(t[0] == s[0]);
        assert(t.skip(1) =~= s.skip(1).push(it));
        lemma_find_subject_push(s.skip(1), it, u);
        if u != it.mikan_subject_id as int {
            if s[0].mikan_subject_id == u {
                assert(find_subject(t, u) == Some(s[0]));
                assert(find_subject(s, u) == Some(s[0]));
            } else {
                assert(find_subject(t, u) == find_subject(t.skip(1), u));
                assert(find_subject(s, u) == find_subject(s.skip(1), u));
            }
        }
    }
}

/// As `lemma_find_item_update`, for episodes.
proof fn lemma_find_episode_update(s: Seq<BangumiEpisode>, i: int, it: BangumiEpisode, u: int)
    requires
        0 <= i < s.len(),
        s[i].episode_id == it.episode_id,
        forall|k: int| 0 <= k < i ==> (#[trigger] s[k]).episode_id != it.episode_id,
    ensures
        find_episode(s.update(i, it), it.episode_id as int) == Some(it),
        u != it.episode_id as int ==> find_episode(s.update(i, it), u) == find_episode(s, u),
    decreases i,
{
    let t = s.update(i, it);
    if i == 0 {
        assert(t[0] == it);
        assert(t.skip(1) =~= s.skip(1));
    } else {
        assert(t[0] == s[0]);
        assert(t.skip(1) =~= s.skip(1).update(i - 1, it));
        lemma_find_episode_update(s.skip(1), i - 1, it, u);
    }
}

/// As `lemma_find_item_push`, for episodes.
proof fn lemma_find_episode_push(s: Seq<BangumiEpisode>, it: BangumiEpisode, u: int)
    requires
        find_episode(s, it.episode_id as int) is None,
    ensures
        find_episode(s.push(it), it.episode_id as int) == Some(it),
        u != it.episode_id as int ==> find_episode(s.push(it), u) == find_episode(s, u),
    decreases s.len(),
{
    let t = s.push(it);
    if s.len() == 0 {
        assert(t[0] == it);
        assert(t.skip(1) =~= Seq::<BangumiEpisode>::empty());
        if u != it.episode_id as int {
            assert(find_episode(t, u) is None);
            assert(find_episode(s, u) is None);
        }
    } else {
        assert(t[0] == s[0]);
        assert(t.skip(1) =~= s.skip(1).push(it));
        lemma_find_episode_push(s.skip(1), it, u);
        if u != it.episode_id as int {
            if s[0].episode_id == u {
                assert(find_episode(t, u) == Some(s[0]));
                assert(find_episode(s, u) == Some(s[0]));
            } else {
                assert(find_episode(t, u) == find_episode(t.skip(1), u));
                assert(find_episode(s, u) == find_episode(s.skip(1), u));
            }
        }
    }
}

/// A release already cached never stands among the uncached announcements:
/// re-ingesting it hands nothing to the detail resolver.
pub proof fn lemma_cached_never_reresolved(
    cache: Seq<MikanItem>,
    list: Seq<MikanItem>,
    uuid: Seq<char>,
)
    requires
        find_item(cache, uuid) is Some,
    ensures
        forall|j: int|
            0 <= j < uncached_spec(cache, list).len() ==> (#[trigger] uncached_spec(
                cache,
                list,
            )[j]).mikan_item_uuid@ != uuid,
    decreases list.len(),
{
    if list.len() > 0 {
        lemma_cached_never_reresolved(cache, list.skip(1), uuid);
        let r = uncached_spec(cache, list);
        let rest = uncached_spec(cache, list.skip(1));
        assert forall|j: int| 0 <= j < r.len() implies (#[trigger] r[j]).mikan_item_uuid@ != uuid by {
            if find_item(cache, list[0].mikan_item_uuid@) is None {
                assert(r == seq![list[0]] + rest);
                if j == 0 {
                    assert(r[0] == list[0]);
                } else {
                    assert(r[j] == rest[j - 1]);
                }
            } else {
                assert(r == rest);
            }
        }
    }
}

impl RssCache {
    /// An empty cache.
    pub fn new() -> (c: RssCache)
        ensures
            c.items@ =~= Seq::<MikanItem>::empty(),
            c.subjects@ =~= Seq::<MikanSubject>::empty(),
            c.episodes@ =~= Seq::<BangumiEpisode>::empty(),
    {
        RssCache { items: Vec::new(), subjects: Vec::new(), episodes: Vec::new() }
    }

    /// Whether the release with this identity is already cached.
    pub fn item_cached(&self, uuid: &str) -> (r: bool)
        ensures
            r == (find_item(self.items@, uuid@) is Some),
    {
        self.find_item_index(uuid).is_some()
    }

    /// The position of the first cached release with this identity.
    fn find_item_index(&self, uuid: &str) -> (r: Option<usize>)
        ensures
            match r {
                Some(i) => {
                    &&& i < self.items@.len()
                    &&& self.items@[i as int].mikan_item_uuid@ == uuid@
                    &&& forall|k: int|
                        0 <= k < i ==> (#[trigger] self.items@[k]).mikan_item_uuid@ != uuid@
                    &&& find_item(self.items@, uuid@) == Some(self.items@[i as int])
                },
                None => find_item(self.items@, uuid@) is None,
            },
    {
        let ghost all = self.items@;
        let mut i: usize = 0;
        proof {
            assert(all.skip(0) =~= all);
        }
        while i < self.items.len()
            invariant
                i <= all.len(),
                self.items@ == all,
                find_item(all, uuid@) == find_item(all.skip(i as int), uuid@),
                forall|k: int| 0 <= k < i ==> (#[trigger] all[k]).mikan_item_uuid@ != uuid@,
            decreases all.len() - i,
        {
            proof {
                assert(all.skip(i as int)[0] == all[i as int]);
                assert(all.skip(i as int).skip(1) =~= all.skip(i as int + 1));
            }
            if crate::strutil::str_eq(self.items[i].mikan_item_uuid.as_str(), uuid) {
                return Some(i);
            }
            i = i + 1;
        }
        proof {
            assert(all.skip(i as int) =~= Seq::<MikanItem>::empty());
        }
        None
    }

    /// Upserts one resolved release, keyed by its identity.  Every other
    /// identity's look-up is untouched.
    pub fn insert_item_to_cache(&mut self, item: &MikanItem)
        ensures
            find_item(final(self).items@, item.mikan_item_uuid@) == Some(*item),
            forall|u: Seq<char>|
                u != item.mikan_item_uuid@ ==> #[trigger] find_item(final(self).items@, u)
                    == find_item(old(self).items@, u),
            final(self).subjects@ == old(self).subjects@,
            final(self).episodes@ == old(self).episodes@,
    {
        let idx = self.find_item_index(item.mikan_item_uuid.as_str());
        match idx {
            Some(i) => {
                let ghost before = self.items@;
                self.items.set(i, item.clone());
                proof {
                    assert forall|u: Seq<char>| u != item.mikan_item_uuid@ implies #[trigger]
                    find_item(self.items@, u) == find_item(before, u) by {
                        lemma_find_item_update(before, i as int, *item, u);
                    }
                    lemma_find_item_update(before, i as int, *item, Seq::<char>::empty());
                }
            },
            None => {
                let ghost before = self.items@;
                self.items.push(item.clone());
                proof {
                    assert forall|u: Seq<char>| u != item.mikan_item_uuid@ implies #[trigger]
                    find_item(self.items@, u) == find_item(before, u) by {
                        lemma_find_item_push(before, *item, u);
                    }
                    lemma_find_item_push(before, *item, Seq::<char>::empty());
                }
            },
        }
    }

    /// Of the given announcements, those not yet cached, in order: the items
    /// the detail resolver still has to handle.
    pub fn filter_uncached_items(&self, items: &Vec<MikanItem>) -> (r: Vec<MikanItem>)
        ensures
            r@ == uncached_spec(self.items@, items@),
    {
        let ghost all = items@;
        let mut out: Vec<MikanItem> = Vec::new();
        let mut i: usize = 0;
        proof {
            assert(all.skip(0) =~= all);
            assert(out@ + uncached_spec(self.items@, all) =~= uncached_spec(self.items@, all));
        }
        while i < items.len()
            invariant
                i <= all.len(),
                items@ == all,
                uncached_spec(self.items@, all) == out@ + uncached_spec(
                    self.items@,
                    all.skip(i as int),
                ),
            decreases all.len() - i,
        {
            proof {
                assert(all.skip(i as int)[0] == all[i as int]);
                assert(all.skip(i as int).skip(1) =~= all.skip(i as int + 1));
            }
            if self.find_item_index(items[i].mikan_item_uuid.as_str()).is_none() {
                out.push(items[i].clone());
            }
            i = i + 1;
        }
        proof {
            assert(all.skip(i as int) =~= Seq::<MikanItem>::empty());
            assert(out@ + Seq::<MikanItem>::empty() =~= out@);
        }
        out
    }

    /// The cached resolution of each given announcement that has one, in
    /// order.
    pub fn fetch_cached_items(&self, items: &Vec<MikanItem>) -> (r: Vec<MikanItem>)
        ensures
            r@ == fetch_spec(self.items@, items@),
    {
        let ghost all = items@;
        let mut out: Vec<MikanItem> = Vec::new();
        let mut i: usize = 0;
        proof {
            assert(all.skip(0) =~= all);
            assert(out@ + fetch_spec(self.items@, all) =~= fetch_spec(self.items@, all));
        }
        while i < items.len()
            invariant
                i <= all.len(),
                items@ == all,
                fetch_spec(self.items@, all) == out@ + fetch_spec(
                    self.items@,
                    all.skip(i as int),
                ),
            decreases all.len() - i,
        {
            proof {
                assert(all.skip(i as int)[0] == all[i as int]);
                assert(all.skip(i as int).skip(1) =~= all.skip(i as int + 1));
            }
            match self.find_item_index(items[i].mikan_item_uuid.as_str()) {
                Some(j) => {
                    out.push(self.items[j].clone());
                },
                None => {},
            }
            i = i + 1;
        }
        proof {
            assert(all.skip(i as int) =~= Seq::<MikanItem>::empty());
            assert(out@ + Seq::<MikanItem>::empty() =~= out@);
        }
        out
    }

    /// The position of the first cached subject mapping with this id.
    fn find_subject_index(&self, id: i32) -> (r: Option<usize>)
        ensures
            match r {
                Some(i) => {
                    &&& i < self.subjects@.len()
                    &&& self.subjects@[i as int].mikan_subject_id == id
                    &&& forall|k: int|
                        0 <= k < i ==> (#[trigger] self.subjects@[k]).mikan_subject_id != id
                    &&& find_subject(self.subjects@, id as int) == Some(self.subjects@[i as int])
                },
                None => find_subject(self.subjects@, id as int) is None,
            },
    {
        let ghost all = self.subjects@;
        let mut i: usize = 0;
        proof {
            assert(all.skip(0) =~= all);
        }
        while i < self.subjects.len()
            invariant
                i <= all.len(),
                self.subjects@ == all,
                find_subject(all, id as int) == find_subject(all.skip(i as int), id as int),
                forall|k: int| 0 <= k < i ==> (#[trigger] all[k]).mikan_subject_id != id,
            decreases all.len() - i,
        {
            proof {
                assert(all.skip(i as int)[0] == all[i as int]);
                assert(all.skip(i as int).skip(1) =~= all.skip(i as int + 1));
            }
            if self.subjects[i].mikan_subject_id == id {
                return Some(i);
            }
            i = i + 1;
        }
        proof {
            assert(all.skip(i as int) =~= Seq::<MikanSubject>::empty());
        }
        None
    }

    /// Upserts one canonical subject mapping, keyed by its feed-subject id.
    pub fn insert_subject_to_cache(&mut self, subject: &MikanSubject)
        ensures
            find_subject(final(self).subjects@, subject.mikan_subject_id as int) == Some(
                *subject,
            ),
            forall|u: int|
                u != subject.mikan_subject_id as int ==> #[trigger] find_subject(
                    final(self).subjects@,
                    u,
                ) == find_subject(old(self).subjects@, u),
            final(self).items@ == old(self).items@,
            final(self).episodes@ == old(self).episodes@,
    {
        let idx = self.find_subject_index(subject.mikan_subject_id);
        match idx {
            Some(i) => {
                let ghost before = self.subjects@;
                self.subjects.set(i, subject.clone());
                proof {
                    assert forall|u: int| u != subject.mikan_subject_id as int implies #[trigger]
                    find_subject(self.subjects@, u) == find_subject(before, u) by {
                        lemma_find_subject_update(before, i as int, *subject, u);
                    }
                    lemma_find_subject_update(before, i as int, *subject, 0);
                }
            },
            None => {
                let ghost before = self.subjects@;
                self.subjects.push(subject.clone());
                proof {
                    assert forall|u: int| u != subject.mikan_subject_id as int implies #[trigger]
                    find_subject(self.subjects@, u) == find_subject(before, u) by {
                        lemma_find_subject_push(before, *subject, u);
                    }
                    lemma_find_subject_push(before, *subject, 0);
                }
            },
        }
    }

    /// The cached canonical mapping of a feed subject, if resolution already
    /// ran for it.
    pub fn fetch_mikan_subject_info(&self, mikan_subject_id: i32) -> (r: Option<MikanSubject>)
        ensures
            match r {
                Some(s) => find_subject(self.subjects@, mikan_subject_id as int) == Some(s),
                None => find_subject(self.subjects@, mikan_subject_id as int) is None,
            },
    {
        match self.find_subject_index(mikan_subject_id) {
            Some(i) => Some(self.subjects[i].clone()),
            None => None,
        }
    }

    /// The position of the first cached episode with this id.
    fn find_episode_index(&self, id: i32) -> (r: Option<usize>)
        ensures
            match r {
                Some(i) => {
                    &&& i < self.episodes@.len()
                    &&& self.episodes@[i as int].episode_id == id
                    &&& forall|k: int|
                        0 <= k < i ==> (#[trigger] self.episodes@[k]).episode_id != id
                    &&& find_episode(self.episodes@, id as int) == Some(
                        self.episodes@[i as int],
                    )
                },
                None => find_episode(self.episodes@, id as int) is None && forall|k: int|
                    0 <= k < self.episodes@.len() ==> (#[trigger] self.episodes@[k]).episode_id
                        != id,
            },
    {
        let ghost all = self.episodes@;
        let mut i: usize = 0;
        proof {
            assert(all.skip(0) =~= all);
        }
        while i < self.episodes.len()
            invariant
                i <= all.len(),
                self.episodes@ == all,
                find_episode(all, id as int) == find_episode(all.skip(i as int), id as int),
                forall|k: int| 0 <= k < i ==> (#[trigger] all[k]).episode_id != id,
            decreases all.len() - i,
        {
            proof {
                assert(all.skip(i as int)[0] == all[i as int]);
                assert(all.skip(i as int).skip(1) =~= all.skip(i as int + 1));
            }
            if self.episodes[i].episode_id == id {
                return Some(i);
            }
            i = i + 1;
        }
        proof {
            assert(all.skip(i as int) =~= Seq::<BangumiEpisode>::empty());
        }
        None
    }

    /// Upserts one canonical episode: the first cached entry with its id is
    /// replaced in place, or it is appended when the id is new; every other
    /// id's look-up is untouched.
    pub fn insert_bangumi_episode_to_cache(&mut self, episode: &BangumiEpisode)
        ensures
            final(self).episodes@ == upsert_episode(old(self).episodes@, *episode),
            find_episode(final(self).episodes@, episode.episode_id as int) == Some(*episode),
            forall|u: int|
                u != episode.episode_id as int ==> #[trigger] find_episode(
                    final(self).episodes@,
                    u,
                ) == find_episode(old(self).episodes@, u),
            final(self).items@ == old(self).items@,
            final(self).subjects@ == old(self).subjects@,
    {
        let idx = self.find_episode_index(episode.episode_id);
        match idx {
            Some(i) => {
                let ghost before = self.episodes@;
                self.episodes.set(i, episode.clone());
                proof {
                    lemma_episode_index_char(before, episode.episode_id as int, i as int);
                    assert forall|u: int| u != episode.episode_id as int implies #[trigger]
                    find_episode(self.episodes@, u) == find_episode(before, u) by {
                        lemma_find_episode_update(before, i as int, *episode, u);
                    }
                    lemma_find_episode_update(before, i as int, *episode, 0);
                }
            },
            None => {
                let ghost before = self.episodes@;
                self.episodes.push(episode.clone());
                proof {
                    lemma_episode_index_char(
                        before,
                        episode.episode_id as int,
                        before.len() as int,
                    );
                    assert forall|u: int| u != episode.episode_id as int implies #[trigger]
                    find_episode(self.episodes@, u) == find_episode(before, u) by {
                        lemma_find_episode_push(before, *episode, u);
                    }
                    lemma_find_episode_push(before, *episode, 0);
                }
            },
        }
    }

    /// The cached episodes of a subject, in cache order.
    pub fn get_bangumi_episodes(&self, bangumi_subject_id: i32) -> (r: Vec<BangumiEpisode>)
        ensures
            r@ == episodes_of(self.episodes@, bangumi_subject_id as int),
    {
        let ghost all = self.episodes@;
        let mut out: Vec<BangumiEpisode> = Vec::new();
        let mut i: usize = 0;
        proof {
            assert(all.skip(0) =~= all);
            assert(out@ + episodes_of(all, bangumi_subject_id as int) =~= episodes_of(
                all,
                bangumi_subject_id as int,
            ));
        }
        while i < self.episodes.len()
            invariant
                i <= all.len(),
                self.episodes@ == all,
                episodes_of(all, bangumi_subject_id as int) == out@ + episodes_of(
                    all.skip(i as int),
                    bangumi_subject_id as int,
                ),
            decreases all.len() - i,
        {
            proof {
                assert(all.skip(i as int)[0] == all[i as int]);
                assert(all.skip(i as int).skip(1) =~= all.skip(i as int + 1));
            }
            if self.episodes[i].subject_id == bangumi_subject_id {
                out.push(self.episodes[i].clone());
            }
            i = i + 1;
        }
        proof {
            assert(all.skip(i as int) =~= Seq::<BangumiEpisode>::empty());
            assert(out@ + Seq::<BangumiEpisode>::empty() =~= out@);
        }
        out
    }

    /// The cached episode with the given id, or an error naming the miss.
    pub fn get_bangumi_episode_info(&self, bangumi_episode_id: i32) -> (r: Result<
        BangumiEpisode,
        crate::errors::AnyError,
    >)
        ensures
            match r {
                Ok(e) => find_episode(self.episodes@, bangumi_episode_id as int) == Some(e),
                Err(_) => find_episode(self.episodes@, bangumi_episode_id as int) is None,
            },
    {
        match self.find_episode_index(bangumi_episode_id) {
            Some(i) => Ok(self.episodes[i].clone()),
            None => Err(crate::errors::new_warn("Bangumi episode info not found in cache.")),
        }
    }

    /// Replaces a subject's whole episode list: the old list is cleared and
    /// the new one inserted, leaving other subjects' episodes in place.
    /// Episode lists are replaced whole because the upstream catalog may
    /// renumber them.
    pub fn replace_episodes(&mut self, subject_id: i32, episodes: &Vec<BangumiEpisode>)
        requires
            forall|k: int|
                0 <= k < episodes@.len() ==> (#[trigger] episodes@[k]).subject_id == subject_id,
        ensures
            episodes_of(final(self).episodes@, subject_id as int) == episodes@,
            forall|sid: int|
                sid != subject_id as int ==> #[trigger] episodes_of(final(self).episodes@, sid)
                    == episodes_of(old(self).episodes@, sid),
            final(self).items@ == old(self).items@,
            final(self).subjects@ == old(self).subjects@,
    {
        let ghost all = self.episodes@;
        let mut kept: Vec<BangumiEpisode> = Vec::new();
        let mut i: usize = 0;
        proof {
            assert(all.skip(0) =~= all);
            assert(kept@ + keep_others(all, subject_id as int) =~= keep_others(
                all,
                subject_id as int,
            ));
        }
        while i < self.episodes.len()
            invariant
                i <= all.len(),
                self.episodes@ == all,
                keep_others(all, subject_id as int) == kept@ + keep_others(
                    all.skip(i as int),
                    subject_id as int,
                ),
            decreases all.len() - i,
        {
            proof {
                assert(all.skip(i as int)[0] == all[i as int]);
                assert(all.skip(i as int).skip(1) =~= all.skip(i as int + 1));
            }
            let e = &self.episodes[i];
            if e.subject_id != subject_id {
                kept.push(e.clone());
            }
            i = i + 1;
        }
        proof {
            assert(all.skip(i as int) =~= Seq::<BangumiEpisode>::empty());
            assert(kept@ + Seq::<BangumiEpisode>::empty() =~= kept@);
        }
        let ghost others = kept@;
        let mut j: usize = 0;
        while j < episodes.len()
            invariant
                j <= episodes@.len(),
                kept@ == others + episodes@.take(j as int),
            decreases episodes.len() - j,
        {
            kept.push(episodes[j].clone());
            j = j + 1;
            proof {
                assert(kept@ =~= others + episodes@.take(j as int));
            }
        }
        proof {
            assert(kept@ =~= others + episodes@);
        }
        self.episodes = kept;
        proof {
            lemma_episodes_of_concat(others, episodes@, subject_id as int);
            lemma_keep_others_clean(all, subject_id as int);
            lemma_episodes_of_same(episodes@, subject_id as int);
            assert(self.episodes@ =~= others + episodes@);
            assert(episodes_of(self.episodes@, subject_id as int) =~= episodes@);
            assert forall|sid: int| sid != subject_id as int implies #[trigger] episodes_of(
                self.episodes@,
                sid,
            ) == episodes_of(all, sid) by {
                lemma_episodes_of_concat(others, episodes@, sid);
                lemma_episodes_of_none(episodes@, subject_id as int, sid);
                lemma_keep_others_passthrough(all, subject_id as int, sid);
                assert(episodes_of(self.episodes@, sid) =~= episodes_of(all, sid));
            }
        }
    }
}

/// The episodes of every subject but `sid`, in cache order.
pub open spec fn keep_others(s: Seq<BangumiEpisode>, sid: int) -> Seq<BangumiEpisode>
    decreases s.len(),
{
    if s.len() == 0 {
        Seq::<BangumiEpisode>::empty()
    } else {
        let rest = keep_others(s.skip(1), sid);
        if s[0].subject_id != sid {
            seq![s[0]] + rest
        } else {
            rest
        }
    }
}

/// Selecting a subject's episodes distributes over concatenation.
proof fn lemma_episodes_of_concat(a: Seq<BangumiEpisode>, b: Seq<BangumiEpisode>, sid: int)
    ensures
        episodes_of(a + b, sid) == episodes_of(a, sid) + episodes_of(b, sid),
    decreases a.len(),
{
    if a.len() == 0 {
        assert(a + b =~= b);
        assert(episodes_of(a, sid) + episodes_of(b, sid) =~= episodes_of(b, sid));
    } else {
        assert((a + b).skip(1) =~= a.skip(1) + b);
        lemma_episodes_of_concat(a.skip(1), b, sid);
        assert((a + b)[0] == a[0]);
        if a[0].subject_id == sid {
            assert(seq![a[0]] + (episodes_of(a.skip(1), sid) + episodes_of(b, sid)) =~= (seq![
                a[0],
            ] + episodes_of(a.skip(1), sid)) + episodes_of(b, sid));
        }
    }
}

/// After dropping a subject's episodes, none of that subject remain.
proof fn lemma_keep_others_clean(s: Seq<BangumiEpisode>, sid: int)
    ensures
        episodes_of(keep_others(s, sid), sid) == Seq::<BangumiEpisode>::empty(),
    decreases s.len(),
{
    if s.len() > 0 {
        lemma_keep_others_clean(s.skip(1), sid);
        if s[0].subject_id != sid {
            assert((seq![s[0]] + keep_others(s.skip(1), sid)).skip(1) =~= keep_others(
                s.skip(1),
                sid,
            ));
        }
    }
}

/// Dropping one subject's episodes leaves every other subject's selection
/// unchanged.
proof fn lemma_keep_others_passthrough(s: Seq<BangumiEpisode>, sid: int, other: int)
    requires
        other != sid,
    ensures
        episodes_of(keep_others(s, sid), other) == episodes_of(s, other),
    decreases s.len(),
{
    if s.len() > 0 {
        lemma_keep_others_passthrough(s.skip(1), sid, other);
        if s[0].subject_id != sid {
            assert((seq![s[0]] + keep_others(s.skip(1), sid)).skip(1) =~= keep_others(
                s.skip(1),
                sid,
            ));
            assert((seq![s[0]] + keep_others(s.skip(1), sid))[0] == s[0]);
        }
    }
}

/// A list holding one subject's episodes only selects to itself.
proof fn lemma_episodes_of_same(s: Seq<BangumiEpisode>, sid: int)
    requires
        forall|k: int| 0 <= k < s.len() ==> (#[trigger] s[k]).subject_id == sid,
    ensures
        episodes_of(s, sid) == s,
    decreases s.len(),
{
    if s.len() > 0 {
        lemma_episodes_of_same(s.skip(1), sid);
        assert(seq![s[0]] + s.skip(1) =~= s);
    }
}

/// A list holding one subject's episodes only selects to nothing for any
/// other subject.
proof fn lemma_episodes_of_none(s: Seq<BangumiEpisode>, sid: int, other: int)
    requires
        other != sid,
        forall|k: int| 0 <= k < s.len() ==> (#[trigger] s[k]).subject_id == sid,
    ensures
        episodes_of(s, other) == Seq::<BangumiEpisode>::empty(),
    decreases s.len(),
{
    if s.len() > 0 {
        lemma_episodes_of_none(s.skip(1), sid, other);
    }
}

} // verus!
