//! Catalog reading, resolution assembly, watch status, download planning and
//! the configuration defaults.

use bangumi007::cache_store::{BangumiEpisode, RssCache};
use bangumi007::catalog::{
    build_bangumi_subject, build_season_entries, get_bangumi_media_type,
    get_bangumi_subject_aliases, is_unsupported_media_type, parse_bangumi_episode,
    parse_bangumi_episodes, tmdb_parse_media_name,
};
use bangumi007::config::get_config;
use bangumi007::downloader::{
    item_to_savepath, maglink_to_hash, plan_downloads, sanitize_series_name, torrent_file_name,
};
use bangumi007::json::{parse_json, JsonValue};
use bangumi007::library::AnimeSeasonItem;
use bangumi007::resolver::{alias_search_queries, complete_item, expand_targets};
use bangumi007::scrobbler::{
    find_episode_id, get_bangumi_episode_collection_status, parse_episode_collection,
    update_watch_status, BangumiEpisodeStatus,
};

fn obj(pairs: Vec<(&str, JsonValue)>) -> JsonValue {
    JsonValue::Obj(pairs.into_iter().map(|(k, v)| (k.to_string(), v)).collect())
}

fn jstr(s: &str) -> JsonValue {
    JsonValue::Str(s.to_string())
}

fn jnum(s: &str) -> JsonValue {
    JsonValue::Num(s.to_string())
}

fn lib_item(uuid: &str, magnet: &str) -> AnimeSeasonItem {
    AnimeSeasonItem {
        mikan_item_uuid: uuid.to_string(),
        mikan_subject_id: 1,
        mikan_subject_name: "Subject".to_string(),
        mikan_subgroup_id: 2,
        mikan_item_title: "T".to_string(),
        mikan_item_magnet_link: magnet.to_string(),
        mikan_item_pub_date: "".to_string(),
        tmdb_series_name: "Series".to_string(),
        tmdb_season_name: "".to_string(),
        tmdb_parsed_season_num: 1,
        bangumi_parsed_season_num: 1,
        mikan_parsed_episode_num: 3,
        mikan_parsed_language: "hans,".to_string(),
        mikan_parsed_codec: "avc,".to_string(),
        disp_episode_num: 3,
        bangumi_parsed_episode_id: -1,
        bangumi_parsed_episode_ep: -1,
        bangumi_parsed_episode_sort: "".to_string(),
    }
}

#[test]
fn test_get_config() {
    get_config();
}

#[test]
fn qbittorrent_test_get_config() {
    get_config();
}

#[test]
fn config_defaults_are_the_documented_ones() {
    let c = get_config();
    assert_eq!(c.host, "localhost");
    assert_eq!(c.port, 8080);
    assert_eq!(c.tags, "Bangumi007");
    assert!(!c.paused_after_add);
}

#[test]
fn test_get_bangumi_subject_aliases() {
    let json = obj(vec![
        ("name_cn", jstr("中文名")),
        ("name", jstr("Original")),
        (
            "infobox",
            JsonValue::Arr(vec![
                obj(vec![("key", jstr("放送"))]),
                obj(vec![
                    ("key", jstr("别名")),
                    (
                        "value",
                        JsonValue::Arr(vec![
                            obj(vec![("v", jstr("Alias One"))]),
                            obj(vec![("v", jstr("Alias Two"))]),
                        ]),
                    ),
                ]),
            ]),
        ),
    ]);
    let aliases = get_bangumi_subject_aliases(&json).unwrap();
    assert_eq!(aliases, vec!["中文名", "Original", "Alias One", "Alias Two"]);
}

#[test]
fn empty_names_are_not_aliases() {
    let json = obj(vec![("name_cn", jstr("")), ("name", jstr("Only"))]);
    let aliases = get_bangumi_subject_aliases(&json).unwrap();
    assert_eq!(aliases, vec!["Only"]);
}

#[test]
fn media_type_and_rejection() {
    let json = obj(vec![("platform", jstr("剧场版"))]);
    let t = get_bangumi_media_type(&json).unwrap();
    assert!(is_unsupported_media_type(&t));
    assert!(is_unsupported_media_type("OVA"));
    assert!(!is_unsupported_media_type("TV"));
    assert_eq!(get_bangumi_media_type(&obj(vec![])).unwrap(), "");
}

#[test]
fn test_get_bangumi_episodes() {
    let cache = RssCache::new();
    let res = cache.get_bangumi_episodes(425978);
    assert_eq!(res.len(), 0);
}

#[test]
fn test_parse_bangumi_episode() {
    let res = parse_bangumi_episode(425978, 8, 0);
    assert!(res.is_err());
}

#[test]
fn episode_list_is_read_and_malformed_entries_skipped() {
    let ep = |id: &str, sort: JsonValue| {
        obj(vec![
            ("id", jnum(id)),
            ("type", jnum("0")),
            ("ep", jnum(id)),
            ("sort", sort),
            ("name", jstr("n")),
            ("name_cn", jstr("cn")),
            ("airdate", jstr("2024-04-01")),
        ])
    };
    let json = obj(vec![(
        "data",
        JsonValue::Arr(vec![
            ep("1", jnum("1")),
            obj(vec![("id", jnum("2"))]),
            ep("3", jstr("3.5")),
        ]),
    )]);
    let eps = parse_bangumi_episodes(77, &json).unwrap();
    assert_eq!(eps.len(), 2);
    assert_eq!(eps[0].episode_id, 1);
    assert_eq!(eps[0].subject_id, 77);
    assert_eq!(eps[1].episode_sort, "3.5");
    assert!(parse_bangumi_episodes(77, &obj(vec![])).is_err());
}

#[test]
fn media_name_comes_from_the_document() {
    assert_eq!(
        tmdb_parse_media_name(&obj(vec![("name", jstr("Series"))])).unwrap(),
        "Series"
    );
    assert!(tmdb_parse_media_name(&obj(vec![])).is_err());
}

#[test]
fn subject_is_assembled_with_alias_season() {
    let json = obj(vec![
        ("name_cn", jstr("某番剧 第二季")),
        ("name", jstr("Some Show Season 2")),
        ("platform", jstr("TV")),
        ("images", obj(vec![("large", jstr("https://img.invalid/c.jpg"))])),
    ]);
    let sub = build_bangumi_subject(444, &json).unwrap();
    assert_eq!(sub.bangumi_subject_id, 444);
    assert_eq!(sub.image_url, "https://img.invalid/c.jpg");
    assert_eq!(sub.aliases.len(), 2);
    assert_eq!(sub.media_type, "TV");
    assert_eq!(sub.season_num, 2);
    assert!(build_bangumi_subject(444, &obj(vec![])).is_err());
}

#[test]
fn season_corpus_groups_by_number() {
    let infos = vec![
        (
            "zh-CN".to_string(),
            obj(vec![(
                "seasons",
                JsonValue::Arr(vec![
                    obj(vec![("name", jstr("第1季")), ("season_number", jnum("1"))]),
                    obj(vec![("name", jstr("第2季")), ("season_number", jnum("2"))]),
                ]),
            )]),
        ),
        (
            "ja".to_string(),
            obj(vec![(
                "seasons",
                JsonValue::Arr(vec![obj(vec![
                    ("name", jstr("シーズン2")),
                    ("season_number", jnum("2")),
                ])]),
            )]),
        ),
    ];
    let entries = build_season_entries(&infos).unwrap();
    assert_eq!(entries.len(), 2);
    assert_eq!(entries[0].season_number, 1);
    assert_eq!(entries[1].season_number, 2);
    assert_eq!(entries[1].names.len(), 2);
    assert!(build_season_entries(&vec![("en".to_string(), obj(vec![]))]).is_err());
}

#[test]
fn collection_status_is_parsed_and_matched_back() {
    let entry = |id: &str, sort: &str, status: &str| {
        obj(vec![
            (
                "episode",
                obj(vec![
                    ("id", jnum(id)),
                    ("ep", jnum(id)),
                    ("type", jnum("0")),
                    ("sort", jnum(sort)),
                    ("name", jstr("n")),
                    ("name_cn", jstr("cn")),
                    ("airdate", jstr("2024-04-01")),
                ]),
            ),
            ("type", jnum(status)),
        ])
    };
    let json = obj(vec![(
        "data",
        JsonValue::Arr(vec![entry("11", "3", "2"), entry("12", "4", "1")]),
    )]);
    let status = parse_episode_collection(&json).unwrap();
    assert_eq!(status.len(), 2);
    assert_eq!(status[0].sort, "3");
    assert!(matches!(status[0].status, BangumiEpisodeStatus::Watched));
    assert!(matches!(status[1].status, BangumiEpisodeStatus::WantToWatch));

    // write the status onto a snapshot: the episode with sort key 3 takes it
    let sea = season_record();
    let mut snapshot_season = bangumi007::app_model::app_season_of(&sea);
    snapshot_season.episodes.push(bangumi007::app_model::AppAnimeEpisode {
        episode_hash: "h".to_string(),
        disp_episode_num: 3,
        bangumi_sort: "".to_string(),
        bangumi_airdate: "".to_string(),
        bangumi_name: "".to_string(),
        bangumi_name_cn: "".to_string(),
        bangumi_ep_type: bangumi007::scrobbler::BangumiEpisodeType::MainStory,
        bangumi_status: BangumiEpisodeStatus::NotCollected,
    });
    let mut library = vec![bangumi007::app_model::AppAnimeSeries {
        disp_series_name: "Series".to_string(),
        seasons: vec![snapshot_season],
    }];
    update_watch_status(&mut library, 500, &status);
    let ep = &library[0].seasons[0].episodes[0];
    assert!(matches!(ep.bangumi_status, BangumiEpisodeStatus::Watched));
    assert_eq!(ep.bangumi_sort, "3");
    assert_eq!(ep.bangumi_name, "n");
}

fn season_record() -> bangumi007::library::AnimeSeason {
    bangumi007::library::AnimeSeason {
        mikan_subject_id: 1,
        mikan_subgroup_id: 2,
        mikan_subject_name: "Subject".to_string(),
        mikan_subject_image: "".to_string(),
        bangumi_subject_id: 500,
        bangumi_subject_name: "Subject".to_string(),
        bangumi_season_num: 1,
        bangumi_subject_image: "".to_string(),
        tmdb_series_id: 7,
        tmdb_series_name: "Series".to_string(),
        tmdb_season_num: 1,
        tmdb_season_name: "Season Name".to_string(),
        bangumi_to_tmdb_episode_offset: 0,
        disp_series_name: "Series".to_string(),
        disp_season_name: "Season Name".to_string(),
        disp_subgroup_name: "Group".to_string(),
        disp_season_num: 1,
        conf_tmdb_episode_offset: 0,
        conf_language: "".to_string(),
        conf_codec: "".to_string(),
        conf_season_num: -1,
        conf_bangumi_episode_offset: 0,
    }
}

#[test]
fn status_update_finds_the_episode_by_sort() {
    let eps = vec![
        BangumiEpisode {
            subject_id: 1,
            episode_id: 9,
            episode_type: 1,
            episode_ep: 1,
            episode_sort: "7".to_string(),
            episode_name: "".to_string(),
            episode_name_cn: "".to_string(),
            episode_airdate: "".to_string(),
        },
        BangumiEpisode {
            subject_id: 1,
            episode_id: 10,
            episode_type: 0,
            episode_ep: 7,
            episode_sort: "7".to_string(),
            episode_name: "".to_string(),
            episode_name_cn: "".to_string(),
            episode_airdate: "".to_string(),
        },
    ];
    assert_eq!(find_episode_id(&eps, "7"), Some(10));
    assert_eq!(find_episode_id(&eps, "8"), None);
}

#[test]
fn magnet_hashes_and_paths() {
    assert_eq!(
        maglink_to_hash(&"magnet:?xt=urn:btih:cafebabe&dn=x".to_string()),
        "cafebabe"
    );
    assert_eq!(maglink_to_hash(&"no-marker".to_string()), "no-marker");
    assert_eq!(sanitize_series_name("A/B:C?D"), "ABCD");
    let item = lib_item("u", "magnet:?xt=urn:btih:aa&dn=x");
    assert_eq!(
        item_to_savepath(&item, &None, "/data"),
        "/data/Series/Season 1"
    );
    assert_eq!(
        item_to_savepath(&item, &Some(season_record()), "/data"),
        "/data/Series/Season 1"
    );
    assert_eq!(torrent_file_name("Series", 1, 3, "old.mkv"), "Series S01E03.mkv");
    assert_eq!(torrent_file_name("Series", 12, 103, "a.b.mp4"), "Series S12E103.mp4");
}

#[test]
fn download_planning_splits_by_known_hash() {
    let a = lib_item("a", "magnet:?xt=urn:btih:aaa&dn=x");
    let b = lib_item("b", "magnet:?xt=urn:btih:bbb&dn=x");
    let (down, mv) = plan_downloads(&vec![a, b], &vec!["bbb".to_string()]);
    assert_eq!(down.len(), 1);
    assert_eq!(down[0].mikan_item_uuid, "a");
    assert_eq!(mv.len(), 1);
    assert_eq!(mv[0].mikan_item_uuid, "b");
}

#[test]
fn alias_retry_queries_whole_then_halved() {
    let qs = alias_search_queries(&vec!["abcdef".to_string(), "某番剧名称".to_string()]);
    assert_eq!(qs, vec!["abcdef", "某番剧名称", "abc", "某番"]);
}

#[test]
fn history_expansion_visits_each_subject_once() {
    let mk = |sid: i32, gid: i32| bangumi007::cache_store::MikanItem {
        mikan_item_uuid: format!("{}-{}", sid, gid),
        mikan_subject_id: sid,
        mikan_subject_name: "".to_string(),
        mikan_subgroup_id: gid,
        mikan_item_title: "".to_string(),
        mikan_item_magnet_link: "".to_string(),
        mikan_item_pub_date: "".to_string(),
        tmdb_series_name: "".to_string(),
        tmdb_season_name: "".to_string(),
        tmdb_parsed_season_num: -1,
        bangumi_parsed_season_num: -1,
        mikan_parsed_episode_num: -1,
        mikan_parsed_language: "".to_string(),
        mikan_parsed_codec: "".to_string(),
        bangumi_parsed_episode_id: -1,
        bangumi_parsed_episode_ep: -1,
        bangumi_parsed_episode_sort: "".to_string(),
    };
    let targets = expand_targets(&vec![mk(1, 2), mk(1, 2), mk(3, 4)]);
    assert_eq!(targets, vec![(1, 2), (3, 4)]);
}

#[test]
fn completion_falls_back_to_the_page_title() {
    let page = bangumi007::detail_page::EpisodePage {
        subject_title: "Page Title".to_string(),
        subgroup_name: "Group".to_string(),
        magnet_link: "magnet:?xt=urn:btih:aa".to_string(),
        episode_title: "Ep".to_string(),
        mikan_subject_id: 1,
        mikan_subgroup_id: 2,
        poster_url: "".to_string(),
    };
    let announced = bangumi007::feed::parse_rss(
        "<item><title>T - 03</title><link>x/u1</link><pubDate>d</pubDate></item>",
    );
    assert_eq!(announced.len(), 1);
    let done = complete_item(&announced[0], &page, &None);
    assert_eq!(done.mikan_subject_id, 1);
    assert_eq!(done.tmdb_series_name, "Page Title");
    assert_eq!(done.tmdb_parsed_season_num, -1);
    assert_eq!(done.mikan_parsed_episode_num, 3);
    assert_eq!(done.mikan_item_magnet_link, "magnet:?xt=urn:btih:aa");

    // with a mapping, the season name comes from the mapping's season name
    let mut sub = bangumi007::cache_store::MikanSubject {
        mikan_subject_id: 1,
        mikan_subject_image_url: "".to_string(),
        bangumi_subject_id: 9,
        bangumi_subject_name: "Subject".to_string(),
        bangumi_season_num: 1,
        bangumi_subject_image_url: "".to_string(),
        tmdb_series_id: 7,
        tmdb_series_name: "Series".to_string(),
        tmdb_season_num: 2,
        tmdb_season_name: "Second Season".to_string(),
        bangumi_to_tmdb_episode_offset: 0,
    };
    sub.mikan_subject_id = page.mikan_subject_id;
    let done2 = complete_item(&announced[0], &page, &Some(sub));
    assert_eq!(done2.tmdb_series_name, "Series");
    assert_eq!(done2.tmdb_season_name, "Second Season");
    assert_eq!(done2.tmdb_parsed_season_num, 2);
}

#[test]
fn subject_document_text_resolves_end_to_end() {
    let text = "{\"name_cn\": \"某番剧 第二季\", \"name\": \"Some Show Season 2\", \
\"platform\": \"TV\", \"images\": {\"large\": \"https://img.invalid/c.jpg\"}}";
    let sub = bangumi007::catalog::get_bangumi_subject(9, text).unwrap();
    assert_eq!(sub.season_num, 2);
    assert!(bangumi007::catalog::get_bangumi_subject(9, "{nope").is_err());
    let eps = bangumi007::catalog::get_bangumi_episodes(9, "{\"data\": []}").unwrap();
    assert_eq!(eps.len(), 0);
    let st = get_bangumi_episode_collection_status("{\"data\": []}").unwrap();
    assert_eq!(st.len(), 0);
}

#[test]
fn errors_keep_their_message() {
    let e = bangumi007::errors::new_warn("something soft");
    assert_eq!(e.text().as_str(), "something soft");
    let e2 = bangumi007::errors::new_err("something hard");
    assert_eq!(e2.text().as_str(), "something hard");
}

#[test]
fn json_parsing_runs_through_the_real_parser() {
    // a tree whose members exercise every variant
    let v = parse_json(
        "{\"n\": null, \"b\": true, \"i\": 7, \"s\": \"x\", \"a\": [1, 2], \"o\": {\"k\": \"v\"}}",
    )
    .unwrap();
    assert!(v.get("n").is_some());
    assert_eq!(v.get("i").unwrap().as_int(), Some(7));
    assert_eq!(v.get("a").unwrap().as_arr().unwrap().len(), 2);
    assert_eq!(
        v.get("o").unwrap().get("k").unwrap().as_str().unwrap().as_str(),
        "v"
    );
}
