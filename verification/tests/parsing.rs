//! Title, alias, feed and page parsing, and the season-alias matcher.

use bangumi007::detail_page::extract_episode_page;
use bangumi007::feed::parse_rss;
use bangumi007::json::{parse_int_str, parse_json, JsonValue};
use bangumi007::season_matcher::{tmdb_search_season_in_infos, SeasonEntry};
use bangumi007::season_parser::parse_season_num_from_aliases;
use bangumi007::title_parser::{
    is_season_bundle, parse_filename_to_codec, parse_filename_to_episode,
    parse_filename_to_language,
};

#[test]
fn test_parse_season_num_from_aliases() {
    let aliases: Vec<String> = vec![
        "Some Show".to_string(),
        "Some Show Season 2".to_string(),
    ];
    assert_eq!(parse_season_num_from_aliases(&aliases), Some(2));
}

#[test]
fn season_from_aliases_rule_order() {
    assert_eq!(
        parse_season_num_from_aliases(&vec!["abc season3".to_string()]),
        Some(3)
    );
    assert_eq!(
        parse_season_num_from_aliases(&vec!["番剧 第4季".to_string()]),
        Some(4)
    );
    assert_eq!(
        parse_season_num_from_aliases(&vec!["番剧 第5期".to_string()]),
        Some(5)
    );
    assert_eq!(
        parse_season_num_from_aliases(&vec!["show s02".to_string()]),
        Some(2)
    );
    assert_eq!(
        parse_season_num_from_aliases(&vec!["番剧 第十一季".to_string()]),
        Some(11)
    );
    assert_eq!(
        parse_season_num_from_aliases(&vec!["番剧 第二十季".to_string()]),
        Some(20)
    );
    assert_eq!(parse_season_num_from_aliases(&vec!["plain".to_string()]), None);
    assert_eq!(parse_season_num_from_aliases(&vec![]), None);
}

#[test]
fn language_tags_hans_and_hant() {
    let both = parse_filename_to_language("[简繁内封] Some Show - 03");
    assert_eq!(both, "hans,hant,");
    let hans = parse_filename_to_language("[CHS] Some Show - 03");
    assert!(hans.contains("hans"));
    let none = parse_filename_to_language("Some Show - 03");
    assert_eq!(none, "");
    let jp = parse_filename_to_language("Some Show 简日双语 - 03");
    assert_eq!(jp, "hans,jpn,");
}

#[test]
fn codec_tags_families() {
    assert_eq!(parse_filename_to_codec("X [1080p AVC MP4]"), "avc,");
    assert_eq!(parse_filename_to_codec("X [HEVC MKV]"), "hevc,");
    assert_eq!(parse_filename_to_codec("X [VP9]"), "vp9,");
    assert_eq!(parse_filename_to_codec("X [AV1]"), "av1,");
    assert_eq!(parse_filename_to_codec("X [x265 MP4]"), "avc,hevc,");
}

#[test]
fn episode_number_first_rule_wins() {
    assert_eq!(parse_filename_to_episode("Show Name - 03 [1080p]"), Some(3));
}

#[test]
fn episode_number_rule_ladder() {
    assert_eq!(parse_filename_to_episode("Show Name [04] [720p]"), Some(4));
    assert_eq!(parse_filename_to_episode("Show Name [第5话]"), Some(5));
    assert_eq!(parse_filename_to_episode("Show Name 第6话 xx"), Some(6));
    assert_eq!(parse_filename_to_episode("Show.Name.S01EP07.x"), Some(7));
    assert_eq!(parse_filename_to_episode("Show Name E08 "), Some(8));
    assert_eq!(parse_filename_to_episode("Show Name - 09v2 [720p]"), Some(9));
    assert_eq!(parse_filename_to_episode("Show Name - 10END [720p]"), Some(10));
    assert_eq!(parse_filename_to_episode("Show Name 1080p"), None);
    assert_eq!(parse_filename_to_episode("Show Name - 1080p"), None);
    // the right-most match of the winning rule is the one taken
    assert_eq!(parse_filename_to_episode("A - 02 B - 11 [720]"), Some(11));
}

#[test]
fn season_bundles_are_flagged() {
    assert!(is_season_bundle("Show Name 1-4 Full"));
    assert!(!is_season_bundle("Show Name - 03"));
}

#[test]
fn matcher_empty_inputs_fall_back_to_season_one() {
    let seasons: Vec<SeasonEntry> = vec![];
    let aliases: Vec<String> = vec![];
    let (num, name) = tmdb_search_season_in_infos(&seasons, &aliases, &None);
    assert_eq!(num, 1);
    assert_eq!(name, "");
}

#[test]
fn matcher_picks_best_scoring_season() {
    let seasons = vec![
        SeasonEntry {
            season_number: 1,
            names: vec![("zh-CN".to_string(), "第1季".to_string())],
        },
        SeasonEntry {
            season_number: 2,
            names: vec![
                ("zh-CN".to_string(), "第2季".to_string()),
                ("ja".to_string(), "シーズン 2".to_string()),
            ],
        },
    ];
    let aliases = vec!["某番剧 第二季".to_string()];
    let (num, name) = tmdb_search_season_in_infos(&seasons, &aliases, &None);
    assert_eq!(num, 2);
    assert_eq!(name, "第2季");
}

#[test]
fn matcher_zero_score_prefers_season_one_name() {
    let seasons = vec![SeasonEntry {
        season_number: 1,
        names: vec![("zh-CN".to_string(), "首季".to_string())],
    }];
    let aliases: Vec<String> = vec!["zzz".to_string()];
    let (num, name) = tmdb_search_season_in_infos(&seasons, &aliases, &None);
    assert_eq!(num, 1);
    assert_eq!(name, "首季");
    let (num2, name2) = tmdb_search_season_in_infos(
        &vec![],
        &vec![],
        &Some("顶层名".to_string()),
    );
    assert_eq!(num2, 1);
    assert_eq!(name2, "顶层名");
}

#[test]
fn matcher_scores_spaced_and_unspaced_aliases_alike() {
    let seasons = vec![SeasonEntry {
        season_number: 2,
        names: vec![("zh-CN".to_string(), "第 2 季".to_string())],
    }];
    let spaced = tmdb_search_season_in_infos(
        &seasons,
        &vec!["某番剧 第 二 季".to_string()],
        &None,
    );
    let plain = tmdb_search_season_in_infos(&seasons, &vec!["某番剧 第二季".to_string()], &None);
    assert_eq!(spaced.0, 2);
    assert_eq!(spaced.0, plain.0);
    assert_eq!(spaced.1, plain.1);
}

#[test]
fn json_round_trip_and_numbers() {
    let v = parse_json("{\"id\": 42, \"name\": \"abc\", \"sort\": 3.5}").unwrap();
    let id = v.get("id").unwrap().as_int().unwrap();
    assert_eq!(id, 42);
    assert_eq!(v.get("name").unwrap().as_str().unwrap().as_str(), "abc");
    assert_eq!(v.get("sort").unwrap().num_rendering().unwrap().as_str(), "3.5");
    assert!(v.get("missing").is_none());
    assert!(parse_json("{oops").is_none());
    assert_eq!(parse_int_str("-17"), Some(-17));
    assert_eq!(parse_int_str("3.5"), None);
    assert_eq!(parse_int_str(""), None);
}

#[test]
fn feed_items_extracted_and_bundles_skipped() {
    let xml = "<rss><channel><title>c</title><link>l</link>\
<item><title>Show A &amp; B - 03 [CHS][1080p AVC]</title>\
<link>https://example.invalid/Home/Episode/aaa111</link>\
<torrent><pubDate>2024-04-01T12:00:00</pubDate></torrent></item>\
<item><title>Show C 1-4 Full</title>\
<link>https://example.invalid/Home/Episode/bbb222</link>\
<torrent><pubDate>2024-04-02T12:00:00</pubDate></torrent></item>\
</channel></rss>";
    let items = parse_rss(xml);
    assert_eq!(items.len(), 1);
    assert_eq!(items[0].mikan_item_uuid, "aaa111");
    assert_eq!(items[0].mikan_item_title, "Show A & B - 03 [CHS][1080p AVC]");
    assert_eq!(items[0].mikan_item_pub_date, "2024-04-01T12:00:00");
    assert_eq!(items[0].mikan_parsed_episode_num, 3);
    assert_eq!(items[0].mikan_parsed_language, "hans,");
    assert_eq!(items[0].mikan_parsed_codec, "avc,");
    assert_eq!(items[0].mikan_subject_id, -1);
}

#[test]
fn detail_page_anchors_extracted() {
    let html = "<div class=\"bangumi-title\"><a href=\"/Home/Bangumi/33\">Show A &amp; B</a></div>\
<p class=\"magnet-link-wrap\">Group X</p>\
<a href=\"magnet:?xt=urn:btih:cafebabe&amp;dn=x\">dl</a>\
<a class=\"episode-title\">Show A - 03 [1080p]<br/></a>\
<a href=\"/RSS/Bangumi?bangumiId=123&subgroupid=45\">rss</a>\
<div class=\"bangumi-poster\" style=\"background-image: url('/images/p.jpg');\"></div>";
    let page = extract_episode_page(html).unwrap();
    assert_eq!(page.subject_title, "Show A & B");
    assert_eq!(page.subgroup_name, "Group X");
    assert_eq!(page.magnet_link, "magnet:?xt=urn:btih:cafebabe&dn=x");
    assert_eq!(page.episode_title, "Show A - 03");
    assert_eq!(page.mikan_subject_id, 123);
    assert_eq!(page.mikan_subgroup_id, 45);
    assert_eq!(page.poster_url, "https://mikanime.tv/images/p.jpg");
    assert!(extract_episode_page("<html></html>").is_err());
}

#[test]
fn subject_page_names_the_catalog_subject() {
    let html = "<a class=\"w-other-c\" href=\"https://bgm.tv/subject/444557\">bgm</a>";
    assert_eq!(
        bangumi007::resolver::extract_bangumi_subject_id(html).unwrap(),
        444557
    );
    assert!(bangumi007::resolver::extract_bangumi_subject_id("none").is_err());
}

#[test]
fn json_value_object_order_is_kept() {
    let v = JsonValue::Obj(vec![
        ("a".to_string(), JsonValue::Num("1".to_string())),
        ("b".to_string(), JsonValue::Null),
    ]);
    assert!(v.get("b").is_some());
    assert_eq!(v.get("a").unwrap().as_int(), Some(1));
}
