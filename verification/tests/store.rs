//! The resolution cache, the library reconciler, the auto-configuration
//! pass, and the override reconciliation.

use bangumi007::app_model::{build_series_tree, SeasonConf, SeasonConfDialogWindow};
use bangumi007::cache_store::{BangumiEpisode, MikanItem, MikanSubject, RssCache};
use bangumi007::library::{AnimeSeason, Library};

fn feed_item(uuid: &str, sid: i32, gid: i32, title: &str, lang: &str, codec: &str, ep: i32)
    -> MikanItem {
    MikanItem {
        mikan_item_uuid: uuid.to_string(),
        mikan_subject_id: sid,
        mikan_subject_name: "Subject".to_string(),
        mikan_subgroup_id: gid,
        mikan_item_title: title.to_string(),
        mikan_item_magnet_link: format!("magnet:?xt=urn:btih:{}&dn=x", uuid),
        mikan_item_pub_date: "2024-04-01".to_string(),
        tmdb_series_name: "Series".to_string(),
        tmdb_season_name: "Season Name".to_string(),
        tmdb_parsed_season_num: 1,
        bangumi_parsed_season_num: 1,
        mikan_parsed_episode_num: ep,
        mikan_parsed_language: lang.to_string(),
        mikan_parsed_codec: codec.to_string(),
        bangumi_parsed_episode_id: -1,
        bangumi_parsed_episode_ep: -1,
        bangumi_parsed_episode_sort: "".to_string(),
    }
}

fn subject(sid: i32) -> MikanSubject {
    MikanSubject {
        mikan_subject_id: sid,
        mikan_subject_image_url: "https://img.invalid/p.jpg".to_string(),
        bangumi_subject_id: 1000 + sid,
        bangumi_subject_name: "Subject".to_string(),
        bangumi_season_num: 1,
        bangumi_subject_image_url: "".to_string(),
        tmdb_series_id: 7,
        tmdb_series_name: "Series".to_string(),
        tmdb_season_num: 1,
        tmdb_season_name: "Season Name".to_string(),
        bangumi_to_tmdb_episode_offset: 0,
    }
}

fn season(sid: i32, gid: i32, offset: i32, lang: &str, codec: &str) -> AnimeSeason {
    AnimeSeason {
        mikan_subject_id: sid,
        mikan_subgroup_id: gid,
        mikan_subject_name: "Subject".to_string(),
        mikan_subject_image: "".to_string(),
        bangumi_subject_id: 1000 + sid,
        bangumi_subject_name: "Subject".to_string(),
        bangumi_season_num: 1,
        bangumi_subject_image: "".to_string(),
        tmdb_series_id: 7,
        tmdb_series_name: "Series".to_string(),
        tmdb_season_num: 1,
        tmdb_season_name: "Season Name".to_string(),
        bangumi_to_tmdb_episode_offset: 0,
        disp_series_name: "Series".to_string(),
        disp_season_name: "Season Name".to_string(),
        disp_subgroup_name: "Group".to_string(),
        disp_season_num: 1,
        conf_tmdb_episode_offset: offset,
        conf_language: lang.to_string(),
        conf_codec: codec.to_string(),
        conf_season_num: -1,
        conf_bangumi_episode_offset: 0,
    }
}

#[test]
fn cached_release_is_never_handed_back_to_the_resolver() {
    let mut cache = RssCache::new();
    let a = feed_item("aaa", 1, 2, "A - 01", "hans,", "avc,", 1);
    let b = feed_item("bbb", 1, 2, "A - 02", "hans,", "avc,", 2);
    cache.insert_item_to_cache(&a);
    let pending = cache.filter_uncached_items(&vec![a.clone(), b.clone()]);
    assert_eq!(pending.len(), 1);
    assert_eq!(pending[0].mikan_item_uuid, "bbb");
    // re-ingesting the same feed still asks nothing for the cached release
    let again = cache.filter_uncached_items(&vec![a.clone()]);
    assert_eq!(again.len(), 0);
    assert!(cache.item_cached("aaa"));
    assert!(!cache.item_cached("bbb"));
}

#[test]
fn feed_with_cached_and_new_release_reconciles_once_each() {
    let mut cache = RssCache::new();
    let a = feed_item("aaa", 1, 2, "A - 01", "hans,", "avc,", 1);
    let b = feed_item("bbb", 1, 2, "A - 02", "hans,", "avc,", 2);
    cache.insert_item_to_cache(&a);
    cache.insert_subject_to_cache(&subject(1));

    // only the new release goes to the resolver
    let pending = cache.filter_uncached_items(&vec![a.clone(), b.clone()]);
    assert_eq!(pending.len(), 1);
    assert_eq!(pending[0].mikan_item_uuid, "bbb");
    cache.insert_item_to_cache(&pending[0]);

    // the cache now holds both releases
    let full = cache.fetch_cached_items(&vec![a.clone(), b.clone()]);
    assert_eq!(full.len(), 2);
    assert!(cache.item_cached("aaa") && cache.item_cached("bbb"));

    // reconciliation stores exactly one item per release
    let mut lib = Library::new();
    lib.update_library(&full, &cache);
    let items = lib.read_all_items();
    assert_eq!(items.len(), 2);
    assert_eq!(lib.read_seasons().len(), 1);

    // a second pass over the same batch changes nothing
    lib.update_library(&full, &cache);
    assert_eq!(lib.read_all_items().len(), 2);
    assert_eq!(lib.read_seasons().len(), 1);
}

#[test]
fn subject_mapping_is_cached_and_episodes_replaced_whole() {
    let mut cache = RssCache::new();
    assert!(cache.fetch_mikan_subject_info(1).is_none());
    cache.insert_subject_to_cache(&subject(1));
    let got = cache.fetch_mikan_subject_info(1).unwrap();
    assert_eq!(got.bangumi_subject_id, 1001);

    let ep = |id: i32, sort: &str| BangumiEpisode {
        subject_id: 1001,
        episode_id: id,
        episode_type: 0,
        episode_ep: id,
        episode_sort: sort.to_string(),
        episode_name: "n".to_string(),
        episode_name_cn: "cn".to_string(),
        episode_airdate: "2024-04-01".to_string(),
    };
    cache.insert_bangumi_episode_to_cache(&ep(5, "5"));
    assert_eq!(cache.get_bangumi_episodes(1001).len(), 1);
    cache.replace_episodes(1001, &vec![ep(6, "6"), ep(7, "7")]);
    let eps = cache.get_bangumi_episodes(1001).len();
    assert_eq!(eps, 2);
    assert!(cache.get_bangumi_episode_info(6).is_ok());
    assert!(cache.get_bangumi_episode_info(5).is_err());
}

#[test]
fn offset_change_moves_every_display_number() {
    let mut lib = Library::new();
    lib.create_season(&season(1, 2, 0, "", ""));
    lib.create_item(&feed_item("e1", 1, 2, "A - 01", "hans,", "avc,", 1));
    lib.create_item(&feed_item("e2", 1, 2, "A - 02", "hans,", "avc,", 2));
    let before = lib.read_season_items(1, 2);
    assert_eq!(before[0].disp_episode_num, 1);
    assert_eq!(before[1].disp_episode_num, 2);

    lib.update_season_config(&season(1, 2, 5, "", ""), false);
    let after = lib.read_season_items(1, 2);
    assert_eq!(after.len(), 2);
    assert_eq!(after[0].disp_episode_num, 6);
    assert_eq!(after[1].disp_episode_num, 7);

    // the next ingested item uses the new offset at once
    lib.create_item(&feed_item("e3", 1, 2, "A - 03", "hans,", "avc,", 3));
    let again = lib.read_season_items(1, 2);
    assert_eq!(again[2].disp_episode_num, 8);
}

#[test]
fn auto_config_keeps_the_best_pair_and_prunes_the_rest() {
    let mut lib = Library::new();
    lib.create_season(&season(1, 2, 0, "", ""));
    lib.create_item(&feed_item("h1", 1, 2, "A - 01", "hans,", "avc,", 1));
    lib.create_item(&feed_item("h2", 1, 2, "A - 02", "hans,", "avc,", 2));
    lib.create_item(&feed_item("h3", 1, 2, "A - 03", "hans,", "avc,", 3));
    lib.create_item(&feed_item("t1", 1, 2, "A - 01 cht", "hant,", "hevc,", 1));
    lib.auto_season_config_clean();

    let sea = lib.read_season_info(1, 2).unwrap();
    assert_eq!(sea.conf_language, "hans,");
    assert_eq!(sea.conf_codec, "avc,");
    let left = lib.read_season_items(1, 2);
    assert_eq!(left.len(), 3);
    for it in &left {
        assert_eq!(it.mikan_parsed_language, "hans,");
        assert_eq!(it.mikan_parsed_codec, "avc,");
    }
}

#[test]
fn filters_drop_non_conforming_releases_silently() {
    let mut cache = RssCache::new();
    cache.insert_subject_to_cache(&subject(1));
    let mut lib = Library::new();
    lib.create_season(&season(1, 2, 0, "hans,", "avc,"));
    let odd = feed_item("x1", 1, 2, "A - 01 cht", "hant,", "avc,", 1);
    let ok = feed_item("x2", 1, 2, "A - 02", "hans,", "avc,", 2);
    // tags that contain the filter pass, even with more tags beside it
    let dual = feed_item("x3", 1, 2, "A - 03", "hans,jpn,", "avc,hevc,", 3);
    lib.update_library(&vec![odd, ok, dual], &cache);
    let items = lib.read_season_items(1, 2);
    assert_eq!(items.len(), 2);
    assert_eq!(items[0].mikan_item_uuid, "x2");
    assert_eq!(items[1].mikan_item_uuid, "x3");
}

#[test]
fn unknown_subject_without_mapping_is_skipped() {
    let cache = RssCache::new();
    let mut lib = Library::new();
    lib.update_library(&vec![feed_item("y1", 9, 9, "B - 01", "", "", 1)], &cache);
    assert_eq!(lib.read_seasons().len(), 0);
    assert_eq!(lib.read_all_items().len(), 0);
}

#[test]
fn new_season_is_built_from_the_cached_mapping() {
    let mut cache = RssCache::new();
    cache.insert_subject_to_cache(&subject(1));
    let mut lib = Library::new();
    lib.update_library(&vec![feed_item("z1", 1, 2, "A - 01", "", "", 1)], &cache);
    let sea = lib.read_season_info(1, 2).unwrap();
    assert_eq!(sea.disp_series_name, "Series");
    assert_eq!(sea.disp_season_name, "Season Name");
    assert_eq!(sea.disp_season_num, 1);
    assert_eq!(sea.conf_language, "");
    assert_eq!(sea.conf_season_num, -1);
}

#[test]
fn season_name_is_synthesized_when_the_catalog_has_none() {
    let mut cache = RssCache::new();
    let mut sub = subject(1);
    sub.tmdb_season_name = "".to_string();
    sub.tmdb_season_num = 3;
    cache.insert_subject_to_cache(&sub);
    let mut lib = Library::new();
    lib.update_library(&vec![feed_item("z2", 1, 2, "A - 01", "", "", 1)], &cache);
    let sea = lib.read_season_info(1, 2).unwrap();
    assert_eq!(sea.disp_season_name, "Season 3");
    assert_eq!(sea.disp_season_num, 3);
}

#[test]
fn deleting_a_season_removes_its_items_too() {
    let mut lib = Library::new();
    lib.create_season(&season(1, 2, 0, "", ""));
    lib.create_item(&feed_item("d1", 1, 2, "A - 01", "", "", 1));
    lib.delete_item("nope");
    assert_eq!(lib.read_all_items().len(), 1);
    lib.delete_item("d1");
    assert_eq!(lib.read_all_items().len(), 0);
    lib.create_item(&feed_item("d2", 1, 2, "A - 02", "", "", 2));
    lib.delete_season(1, 2);
    assert!(lib.read_season_info(1, 2).is_none());
    assert_eq!(lib.read_all_items().len(), 0);
}

#[test]
fn overrides_apply_whole_and_renumber() {
    let mut lib = Library::new();
    lib.create_season(&season(1, 2, 0, "", ""));
    lib.create_item(&feed_item("o1", 1, 2, "A - 01", "", "", 1));
    let conf = SeasonConf {
        subject_id: 1,
        subgroup_id: 2,
        default_disp_season: 1,
        conf_season: 4,
        conf_season_changed: true,
        ep_num_min: 1,
        ep_num_max: 1,
        conf_tmdb_ep_offset: 10,
        conf_bangumi_ep_offset: 2,
    };
    lib.apply_season_conf(&conf);
    let sea = lib.read_season_info(1, 2).unwrap();
    assert_eq!(sea.conf_season_num, 4);
    assert_eq!(sea.disp_season_num, 4);
    assert_eq!(sea.conf_tmdb_episode_offset, 10);
    assert_eq!(sea.conf_bangumi_episode_offset, 2);
    assert_eq!(lib.read_season_items(1, 2)[0].disp_episode_num, 11);
}

#[test]
fn snapshot_orders_series_seasons_and_episodes() {
    let mut lib = Library::new();
    let mut s1 = season(1, 2, 0, "", "");
    s1.disp_series_name = "Beta".to_string();
    s1.disp_season_num = 2;
    let mut s2 = season(3, 4, 0, "", "");
    s2.disp_series_name = "Alpha".to_string();
    let mut s3 = season(5, 6, 0, "", "");
    s3.disp_series_name = "Beta".to_string();
    s3.disp_season_num = 1;
    lib.create_season(&s1);
    lib.create_season(&s2);
    lib.create_season(&s3);
    lib.create_item(&feed_item("q2", 1, 2, "B - 02", "", "", 2));
    lib.create_item(&feed_item("q1", 1, 2, "B - 01", "", "", 1));
    let tree = build_series_tree(&lib);
    assert_eq!(tree.len(), 2);
    assert_eq!(tree[0].disp_series_name, "Alpha");
    assert_eq!(tree[1].disp_series_name, "Beta");
    assert_eq!(tree[1].seasons.len(), 2);
    assert_eq!(tree[1].seasons[0].disp_season_num, 1);
    assert_eq!(tree[1].seasons[1].disp_season_num, 2);
    let eps = &tree[1].seasons[1].episodes;
    assert_eq!(eps.len(), 2);
    assert_eq!(eps[0].disp_episode_num, 1);
    assert_eq!(eps[1].disp_episode_num, 2);
}

#[test]
fn dialog_starts_closed_and_unselected() {
    let w = SeasonConfDialogWindow::new();
    assert!(!w.open && !w.open_my && !w.inited);
    assert_eq!(w.subject_id, -1);
    assert_eq!(w.conf_ep_offset, 0);
}
