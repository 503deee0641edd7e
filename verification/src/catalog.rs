//! Reading the two metadata catalogs' answers: subject aliases, media type
//! and cover image from the community catalog, episode lists, and localized
//! series and season names from the secondary catalog.

use vstd::prelude::*;
use crate::cache_store::BangumiEpisode;
use crate::errors::{new_err, new_warn, AnyError};
use crate::json::{json_of, parse_json, spec_as_arr, spec_as_int, spec_get, JsonValue};
use crate::season_matcher::SeasonEntry;
use crate::season_parser::{parse_season_num_from_aliases, season_of_aliases};
use crate::strutil::str_eq;

verus! {

/// A community-catalog subject: its identity, cover image, aliases, media
/// type, and the season number derived from the aliases.
pub struct BangumiSubject {
    /// The catalog's subject identity.
    pub bangumi_subject_id: i32,
    /// The subject's cover image.
    pub image_url: String,
    /// The subject's names: localized name, original name, then the listed
    /// aliases.
    pub aliases: Vec<String>,
    /// The catalog's media type for the subject.
    pub media_type: String,
    /// The season number derived from the aliases, or `-1`.
    pub season_num: i32,
}

/// The string under `key` of an object, if it is a string.
pub open spec fn str_member(v: JsonValue, key: Seq<char>) -> Option<String> {
    match spec_get(v, key) {
        Some(m) => match m {
            JsonValue::Str(s) => Some(s),
            _ => None,
        },
        None => None,
    }
}

/// The aliases a `v` entry of the alias list contributes.
pub open spec fn alias_values(vs: Seq<JsonValue>) -> Seq<String>
    decreases vs.len(),
{
    if vs.len() == 0 {
        Seq::<String>::empty()
    } else {
        let rest = alias_values(vs.skip(1));
        match str_member(vs[0], "v"@) {
            Some(s) => seq![s] + rest,
            None => rest,
        }
    }
}

/// The aliases the infobox rows contribute: every `v` entry of each row
/// whose key is the alias marker.
pub open spec fn infobox_aliases(items: Seq<JsonValue>) -> Seq<String>
    decreases items.len(),
{
    if items.len() == 0 {
        Seq::<String>::empty()
    } else {
        let rest = infobox_aliases(items.skip(1));
        let here = match str_member(items[0], "key"@) {
            Some(k) => if k@ == "别名"@ {
                match spec_get(items[0], "value"@) {
                    Some(m) => match spec_as_arr(m) {
                        Some(vs) => alias_values(vs),
                        None => Seq::<String>::empty(),
                    },
                    None => Seq::<String>::empty(),
                }
            } else {
                Seq::<String>::empty()
            },
            None => Seq::<String>::empty(),
        };
        here + rest
    }
}

/// The subject's own names: the localized name first, then the original
/// name, each only when present and non-empty.
pub open spec fn base_aliases(v: JsonValue) -> Seq<String> {
    (match str_member(v, "name_cn"@) {
        Some(s) => if s@.len() > 0 {
            seq![s]
        } else {
            Seq::<String>::empty()
        },
        None => Seq::<String>::empty(),
    }) + (match str_member(v, "name"@) {
        Some(s) => if s@.len() > 0 {
            seq![s]
        } else {
            Seq::<String>::empty()
        },
        None => Seq::<String>::empty(),
    })
}

/// Every alias a subject document lists: its names, then the infobox alias
/// rows.
pub open spec fn aliases_of(v: JsonValue) -> Seq<String> {
    base_aliases(v) + (match spec_get(v, "infobox"@) {
        Some(m) => match spec_as_arr(m) {
            Some(items) => infobox_aliases(items),
            None => Seq::<String>::empty(),
        },
        None => Seq::<String>::empty(),
    })
}

/// The string under `key` of an object, if it is a string.
pub fn get_str_member<'a>(v: &'a JsonValue, key: &str) -> (r: Option<&'a String>)
    ensures
        match r {
            Some(s) => str_member(*v, key@) == Some(*s),
            None => str_member(*v, key@) is None,
        },
{
    match v.get(key) {
        Some(m) => m.as_str(),
        None => None,
    }
}

/// The aliases the entries of one alias list contribute.
fn collect_alias_values(vs: &Vec<JsonValue>) -> (r: Vec<String>)
    ensures
        r@ == alias_values(vs@),
{
    let ghost all = vs@;
    let mut out: Vec<String> = Vec::new();
    let mut i: usize = 0;
    proof {
        assert(all.skip(0) =~= all);
        assert(out@ + alias_values(all) =~= alias_values(all));
    }
    while i < vs.len()
        invariant
            i <= all.len(),
            vs@ == all,
            alias_values(all) == out@ + alias_values(all.skip(i as int)),
        decreases all.len() - i,
    {
        proof {
            assert(all.skip(i as int)[0] == all[i as int]);
            assert(all.skip(i as int).skip(1) =~= all.skip(i as int + 1));
        }
        match get_str_member(&vs[i], "v") {
            Some(s) => {
                out.push(s.clone());
            },
            None => {},
        }
        i = i + 1;
    }
    proof {
        assert(all.skip(i as int) =~= Seq::<JsonValue>::empty());
        assert(out@ + Seq::<String>::empty() =~= out@);
    }
    out
}

/// Every alias a subject document lists, in the catalog's order: the
/// localized name, the original name, then the infobox alias rows.  Missing
/// pieces contribute nothing; the extraction itself never fails.
pub fn get_bangumi_subject_aliases(json: &JsonValue) -> (r: Result<Vec<String>, AnyError>)
    ensures
        r matches Ok(v) && v@ == aliases_of(*json),
{
    let mut out: Vec<String> = Vec::new();
    match get_str_member(json, "name_cn") {
        Some(s) => {
            if !s.as_str().is_empty() {
                out.push(s.clone());
            }
        },
        None => {},
    }
    match get_str_member(json, "name") {
        Some(s) => {
            if !s.as_str().is_empty() {
                out.push(s.clone());
            }
        },
        None => {},
    }
    proof {
        assert(out@ =~= base_aliases(*json));
    }
    let items = match json.get("infobox") {
        Some(m) => match m.as_arr() {
            Some(items) => items,
            None => {
                proof {
                    assert(out@ =~= aliases_of(*json));
                }
                return Ok(out);
            },
        },
        None => {
            proof {
                assert(out@ =~= aliases_of(*json));
            }
            return Ok(out);
        },
    };
    let ghost all = items@;
    let ghost base = out@;
    let mut i: usize = 0;
    proof {
        assert(all.skip(0) =~= all);
        assert(base + infobox_aliases(all) =~= base + infobox_aliases(all));
    }
    while i < items.len()
        invariant
            i <= all.len(),
            items@ == all,
            out@ + infobox_aliases(all.skip(i as int)) == base + infobox_aliases(all),
        decreases all.len() - i,
    {
        proof {
            assert(all.skip(i as int)[0] == all[i as int]);
            assert(all.skip(i as int).skip(1) =~= all.skip(i as int + 1));
        }
        let item = &items[i];
        let is_alias_row = match get_str_member(item, "key") {
            Some(k) => str_eq(k.as_str(), "别名"),
            None => false,
        };
        if is_alias_row {
            match item.get("value") {
                Some(m) => match m.as_arr() {
                    Some(vs) => {
                        let mut found = collect_alias_values(vs);
                        out.append(&mut found);
                        proof {
                            assert(out@ + infobox_aliases(all.skip(i as int + 1)) =~= base
                                + infobox_aliases(all));
                        }
                    },
                    None => {},
                },
                None => {},
            }
        }
        i = i + 1;
        proof {
            assert(out@ + infobox_aliases(all.skip(i as int)) =~= base + infobox_aliases(all));
        }
    }
    proof {
        assert(all.skip(i as int) =~= Seq::<JsonValue>::empty());
        assert(out@ =~= base + infobox_aliases(all));
        assert(out@ =~= aliases_of(*json));
    }
    Ok(out)
}

/// The media type a subject document names, or an empty string when it names
/// none.
pub open spec fn media_type_of(v: JsonValue) -> Seq<char> {
    match str_member(v, "platform"@) {
        Some(s) => s@,
        None => Seq::<char>::empty(),
    }
}

/// The media type a subject document names, or an empty string.
pub fn get_bangumi_media_type(json: &JsonValue) -> (r: Result<String, AnyError>)
    ensures
        r matches Ok(s) && s@ == media_type_of(*json),
{
    match get_str_member(json, "platform") {
        Some(s) => Ok(s.clone()),
        None => Ok(String::new()),
    }
}

/// Theatrical and original-video releases are not supported: resolution
/// rejects them per subject.
pub fn is_unsupported_media_type(media_type: &str) -> (r: bool)
    ensures
        r == (media_type@ == "剧场版"@ || media_type@ == "OVA"@),
{
    str_eq(media_type, "剧场版") || str_eq(media_type, "OVA")
}

/// The display index a `sort` member stands for: a string is taken as it
/// is; a number keeps its decimal rendering.
pub open spec fn sort_member(v: JsonValue) -> Option<String> {
    match spec_get(v, "sort"@) {
        Some(m) => match m {
            JsonValue::Str(s) => Some(s),
            JsonValue::Num(s) => Some(s),
            _ => None,
        },
        None => None,
    }
}

/// The integer under `key` of an object, when it is one and fits the
/// catalog's identifier type.
pub open spec fn int_member(v: JsonValue, key: Seq<char>) -> Option<int> {
    match spec_get(v, key) {
        Some(m) => match spec_as_int(m) {
            Some(n) => if i32::MIN <= n <= i32::MAX {
                Some(n)
            } else {
                None
            },
            None => None,
        },
        None => None,
    }
}

/// The canonical episode one entry of the episode list stands for, when all
/// its needed members are present and well-typed.
pub open spec fn episode_from_json(sid: i32, e: JsonValue) -> Option<BangumiEpisode> {
    match (int_member(e, "id"@), int_member(e, "type"@), int_member(e, "ep"@)) {
        (Some(id), Some(ty), Some(ep)) => {
            match (sort_member(e), str_member(e, "name"@), str_member(e, "name_cn"@), str_member(e, "airdate"@)) {
                (Some(sort), Some(name), Some(name_cn), Some(airdate)) => Some(
                    BangumiEpisode {
                        subject_id: sid,
                        episode_id: id as i32,
                        episode_type: ty as i32,
                        episode_ep: ep as i32,
                        episode_sort: sort,
                        episode_name: name,
                        episode_name_cn: name_cn,
                        episode_airdate: airdate,
                    },
                ),
                _ => None,
            }
        },
        _ => None,
    }
}

/// The canonical episodes an episode list holds: entries with missing or
/// mistyped members are skipped.
pub open spec fn episodes_from_json(sid: i32, es: Seq<JsonValue>) -> Seq<BangumiEpisode>
    decreases es.len(),
{
    if es.len() == 0 {
        Seq::<BangumiEpisode>::empty()
    } else {
        let rest = episodes_from_json(sid, es.skip(1));
        match episode_from_json(sid, es[0]) {
            Some(e) => seq![e] + rest,
            None => rest,
        }
    }
}

/// The integer under `key` of an object, when it is one and fits.
pub fn get_int_member(v: &JsonValue, key: &str) -> (r: Option<i32>)
    ensures
        match r {
            Some(n) => int_member(*v, key@) == Some(n as int),
            None => int_member(*v, key@) is None,
        },
{
    match v.get(key) {
        Some(m) => match m.as_int() {
            Some(n) => {
                if n >= -2147483648i64 && n <= 2147483647i64 {
                    Some(n as i32)
                } else {
                    None
                }
            },
            None => None,
        },
        None => None,
    }
}

/// The display index an episode entry carries, if any.
pub fn get_sort_member(e: &JsonValue) -> (r: Option<String>)
    ensures
        match r {
            Some(s) => sort_member(*e) == Some(s),
            None => sort_member(*e) is None,
        },
{
    match e.get("sort") {
        Some(m) => match m.as_str() {
            Some(s) => Some(s.clone()),
            None => match m.num_rendering() {
                Some(s) => Some(s.clone()),
                None => None,
            },
        },
        None => None,
    }
}

/// The canonical episodes of a subject read out of the catalog's episode
/// list: the document's `data` array, one episode per well-formed entry,
/// malformed entries skipped.  It fails exactly when the document has no
/// `data` array.
pub fn parse_bangumi_episodes(bangumi_subject_id: i32, json: &JsonValue) -> (r: Result<
    Vec<BangumiEpisode>,
    AnyError,
>)
    ensures
        match r {
            Ok(v) => {
                &&& spec_get(*json, "data"@) matches Some(d)
                &&& spec_as_arr(spec_get(*json, "data"@)->Some_0) matches Some(es)
                &&& v@ == episodes_from_json(bangumi_subject_id, es)
            },
            Err(_) => {
                spec_get(*json, "data"@) is None || spec_as_arr(
                    spec_get(*json, "data"@)->Some_0,
                ) is None
            },
        },
{
    let es = match json.get("data") {
        Some(m) => match m.as_arr() {
            Some(es) => es,
            None => {
                return Err(new_warn("Failed to get bangumi episodes"));
            },
        },
        None => {
            return Err(new_warn("Failed to get bangumi episodes"));
        },
    };
    let ghost all = es@;
    let mut out: Vec<BangumiEpisode> = Vec::new();
    let mut i: usize = 0;
    proof {
        assert(all.skip(0) =~= all);
        assert(out@ + episodes_from_json(bangumi_subject_id, all) =~= episodes_from_json(
            bangumi_subject_id,
            all,
        ));
    }
    while i < es.len()
        invariant
            i <= all.len(),
            es@ == all,
            episodes_from_json(bangumi_subject_id, all) == out@ + episodes_from_json(
                bangumi_subject_id,
                all.skip(i as int),
            ),
        decreases all.len() - i,
    {
        proof {
            assert(all.skip(i as int)[0] == all[i as int]);
            assert(all.skip(i as int).skip(1) =~= all.skip(i as int + 1));
        }
        let e = &es[i];
        let id = get_int_member(e, "id");
        let ty = get_int_member(e, "type");
        let ep = get_int_member(e, "ep");
        if id.is_some() && ty.is_some() && ep.is_some() {
            let sort = get_sort_member(e);
            let name = get_str_member(e, "name");
            let name_cn = get_str_member(e, "name_cn");
            let airdate = get_str_member(e, "airdate");
            match (sort, name, name_cn, airdate) {
                (Some(sort), Some(name), Some(name_cn), Some(airdate)) => {
                    let row = BangumiEpisode {
                        subject_id: bangumi_subject_id,
                        episode_id: id.unwrap(),
                        episode_type: ty.unwrap(),
                        episode_ep: ep.unwrap(),
                        episode_sort: sort,
                        episode_name: name.clone(),
                        episode_name_cn: name_cn.clone(),
                        episode_airdate: airdate.clone(),
                    };
                    proof {
                        assert(Some(row) == episode_from_json(bangumi_subject_id, all[i as int]));
                    }
                    out.push(row);
                },
                _ => {},
            }
        }
        i = i + 1;
    }
    proof {
        assert(all.skip(i as int) =~= Seq::<JsonValue>::empty());
        assert(out@ + Seq::<BangumiEpisode>::empty() =~= out@);
    }
    Ok(out)
}

/// The series name a secondary-catalog document carries.
pub fn tmdb_parse_media_name(json: &JsonValue) -> (r: Result<String, AnyError>)
    ensures
        match r {
            Ok(s) => str_member(*json, "name"@) == Some(s),
            Err(_) => str_member(*json, "name"@) is None,
        },
{
    match get_str_member(json, "name") {
        Some(s) => Ok(s.clone()),
        None => Err(new_err("Failed to get name")),
    }
}

/// How an assembled subject relates to its document: the required cover
/// image, the listed aliases, the media type, and the alias-derived season
/// number.
pub open spec fn subject_matches_doc(sub: BangumiSubject, id: i32, v: JsonValue) -> bool {
    &&& sub.bangumi_subject_id == id
    &&& spec_get(v, "images"@) matches Some(imgs)
    &&& str_member(spec_get(v, "images"@)->Some_0, "large"@) == Some(sub.image_url)
    &&& sub.aliases@ == aliases_of(v)
    &&& sub.media_type@ == media_type_of(v)
    &&& sub.season_num as int == (match season_of_aliases(
        aliases_of(v).map_values(|a: String| a@),
    ) {
        Some(n) => n,
        None => -1,
    })
}

/// The document has the cover image a subject needs.
pub open spec fn subject_doc_wf(v: JsonValue) -> bool {
    spec_get(v, "images"@) is Some && str_member(
        spec_get(v, "images"@)->Some_0,
        "large"@,
    ) is Some
}

/// A community-catalog subject assembled from its document: the cover image
/// is required; the aliases, media type and alias-derived season number
/// always come out.
pub fn build_bangumi_subject(bangumi_subject_id: i32, json: &JsonValue) -> (r: Result<
    BangumiSubject,
    AnyError,
>)
    ensures
        match r {
            Ok(sub) => subject_matches_doc(sub, bangumi_subject_id, *json),
            Err(_) => !subject_doc_wf(*json),
        },
{
    let image_url = match json.get("images") {
        Some(imgs) => match get_str_member(imgs, "large") {
            Some(u) => u.clone(),
            None => {
                return Err(new_warn("Failed to get image url"));
            },
        },
        None => {
            return Err(new_warn("Failed to get image url"));
        },
    };
    let aliases = match get_bangumi_subject_aliases(json) {
        Ok(a) => a,
        Err(e) => {
            return Err(e);
        },
    };
    let media_type = match get_bangumi_media_type(json) {
        Ok(t) => t,
        Err(e) => {
            return Err(e);
        },
    };
    let season_num = match parse_season_num_from_aliases(&aliases) {
        Some(n) => n,
        None => -1,
    };
    proof {
        assert(aliases.deep_view() =~= aliases_of(*json).map_values(|a: String| a@));
    }
    Ok(
        BangumiSubject {
            bangumi_subject_id,
            image_url,
            aliases,
            media_type,
            season_num,
        },
    )
}

/// Always fails: matching a parsed episode number against the canonical
/// episode list is not performed; resolution records the sentinel instead.
pub fn parse_bangumi_episode(bangumi_subject_id: i32, mikan_episode_num: i32, episode_type: i32)
    -> (r: Result<BangumiEpisode, AnyError>)
    ensures
        r is Err,
{
    Err(new_err("Failed to find episode"))
}

/// A document with a malformed season listing is not well formed.
proof fn lemma_doc_not_wf(doc: JsonValue, ss: Seq<JsonValue>, j: int)
    requires
        spec_get(doc, "seasons"@) is Some,
        spec_as_arr(spec_get(doc, "seasons"@)->Some_0) == Some(ss),
        0 <= j < ss.len(),
        !season_listing_wf(ss[j]),
    ensures
        !season_doc_wf(doc),
{
    if season_doc_wf(doc) {
        let m = spec_get(doc, "seasons"@)->Some_0;
        let ss2 = spec_as_arr(m)->Some_0;
        assert(ss2 == ss);
        assert(season_listing_wf(ss2[j]));
    }
}

/// One season listing of a secondary-catalog document is well formed: it
/// names the season and numbers it.
pub open spec fn season_listing_wf(e: JsonValue) -> bool {
    &&& str_member(e, "name"@) is Some
    &&& spec_get(e, "season_number"@) matches Some(m) && spec_as_int(m) is Some
}

/// A secondary-catalog document is well formed: it carries a `seasons` array
/// of well-formed season listings.
pub open spec fn season_doc_wf(v: JsonValue) -> bool {
    match spec_get(v, "seasons"@) {
        Some(m) => match spec_as_arr(m) {
            Some(ss) => forall|k: int| 0 <= k < ss.len() ==> season_listing_wf(#[trigger] ss[k]),
            None => false,
        },
        None => false,
    }
}

/// Every document of a localized set is well formed.
pub open spec fn infos_wf(infos: Seq<(String, JsonValue)>) -> bool {
    forall|k: int| 0 <= k < infos.len() ==> season_doc_wf((#[trigger] infos[k]).1)
}

/// The corpus a season-entry list stands for: each entry's number with its
/// (language, season name) pairs.
pub open spec fn entry_views(entries: Seq<SeasonEntry>) -> Seq<(int, Seq<(String, String)>)> {
    entries.map_values(|e: SeasonEntry| (e.season_number as int, e.names@))
}

/// The index of the first corpus entry with the given season number, or a
/// negative number.
pub open spec fn corpus_index(acc: Seq<(int, Seq<(String, String)>)>, n: int) -> int
    decreases acc.len(),
{
    if acc.len() == 0 {
        -1
    } else if acc[0].0 == n {
        0
    } else if corpus_index(acc.skip(1), n) >= 0 {
        1 + corpus_index(acc.skip(1), n)
    } else {
        -1
    }
}

/// One season listing added to the corpus: the pair joins the entry with its
/// number, or starts a new entry at the end.
pub open spec fn corpus_add(
    acc: Seq<(int, Seq<(String, String)>)>,
    n: int,
    lang: String,
    name: String,
) -> Seq<(int, Seq<(String, String)>)> {
    let i = corpus_index(acc, n);
    if i >= 0 {
        acc.update(i, (n, acc[i].1.push((lang, name))))
    } else {
        acc.push((n, seq![(lang, name)]))
    }
}

/// One document's season listings, from index `j` on, added to the corpus;
/// a malformed listing adds nothing.
pub open spec fn corpus_doc(
    acc: Seq<(int, Seq<(String, String)>)>,
    lang: String,
    seasons: Seq<JsonValue>,
    j: int,
) -> Seq<(int, Seq<(String, String)>)>
    decreases seasons.len() - j,
{
    if j < 0 || j >= seasons.len() {
        acc
    } else {
        let next = if season_listing_wf(seasons[j]) {
            corpus_add(
                acc,
                spec_as_int(spec_get(seasons[j], "season_number"@)->Some_0)->Some_0,
                lang,
                str_member(seasons[j], "name"@)->Some_0,
            )
        } else {
            acc
        };
        corpus_doc(next, lang, seasons, j + 1)
    }
}

/// The documents' season listings, from document `i` on, added to the
/// corpus; a document without a seasons array adds nothing.
pub open spec fn corpus_docs(
    acc: Seq<(int, Seq<(String, String)>)>,
    infos: Seq<(String, JsonValue)>,
    i: int,
) -> Seq<(int, Seq<(String, String)>)>
    decreases infos.len() - i,
{
    if i < 0 || i >= infos.len() {
        acc
    } else {
        let next = match spec_get(infos[i].1, "seasons"@) {
            Some(m) => match spec_as_arr(m) {
                Some(ss) => corpus_doc(acc, infos[i].0, ss, 0),
                None => acc,
            },
            None => acc,
        };
        corpus_docs(next, infos, i + 1)
    }
}

/// The season-name corpus of a localized document set: per season number, in
/// first-appearance order, the (language, season name) pairs in document
/// order.
pub open spec fn season_corpus(infos: Seq<(String, JsonValue)>) -> Seq<
    (int, Seq<(String, String)>),
> {
    corpus_docs(Seq::<(int, Seq<(String, String)>)>::empty(), infos, 0)
}

/// When the first `k` corpus entries miss the number, the first hit at `k`
/// (or none at all) decides the corpus index.
proof fn lemma_corpus_index_char(acc: Seq<(int, Seq<(String, String)>)>, n: int, k: int)
    requires
        0 <= k <= acc.len(),
        forall|m: int| 0 <= m < k ==> (#[trigger] acc[m]).0 != n,
    ensures
        k < acc.len() && acc[k].0 == n ==> corpus_index(acc, n) == k,
        k == acc.len() ==> corpus_index(acc, n) == -1,
    decreases k,
{
    if acc.len() > 0 {
        if k == 0 {
        } else {
            assert(forall|m: int| 0 <= m < k - 1 ==> (#[trigger] acc.skip(1)[m]).0 != n) by {
                assert(forall|m: int| 0 <= m < k - 1 ==> acc.skip(1)[m] == acc[m + 1]);
            }
            lemma_corpus_index_char(acc.skip(1), n, k - 1);
        }
    }
}

/// The position of the first entry with the given season number, tied to the
/// corpus index.
fn entry_pos(entries: &Vec<SeasonEntry>, number: i64) -> (r: Option<usize>)
    ensures
        match r {
            Some(f) => f < entries@.len() && entries@[f as int].season_number == number
                && f as int == corpus_index(entry_views(entries@), number as int),
            None => corpus_index(entry_views(entries@), number as int) == -1,
        },
{
    let ghost views = entry_views(entries@);
    let mut k: usize = 0;
    while k < entries.len()
        invariant
            k <= entries@.len(),
            views == entry_views(entries@),
            forall|m: int| 0 <= m < k ==> (#[trigger] views[m]).0 != number as int,
        decreases entries.len() - k,
    {
        if entries[k].season_number == number {
            proof {
                assert(views[k as int].0 == number as int);
                lemma_corpus_index_char(views, number as int, k as int);
            }
            return Some(k);
        }
        proof {
            assert(views[k as int].0 != number as int);
        }
        k = k + 1;
    }
    proof {
        lemma_corpus_index_char(views, number as int, views.len() as int);
    }
    None
}

/// The season-name corpus a set of localized secondary-catalog documents
/// spans: for each document in order, its `seasons` array contributes, per
/// season, the (language, season name) pair under the season's number;
/// season numbers are listed in first-appearance order.  It fails exactly
/// when some document lacks a well-formed `seasons` array or some season
/// lacks its name or number.
pub fn build_season_entries(infos: &Vec<(String, JsonValue)>) -> (r: Result<
    Vec<SeasonEntry>,
    AnyError,
>)
    ensures
        r is Ok <==> infos_wf(infos@),
        r matches Ok(v) ==> entry_views(v@) == season_corpus(infos@),
{
    let mut entries: Vec<SeasonEntry> = Vec::new();
    let mut i: usize = 0;
    proof {
        assert(entry_views(entries@) =~= Seq::<(int, Seq<(String, String)>)>::empty());
    }
    while i < infos.len()
        invariant
            i <= infos@.len(),
            forall|k: int| 0 <= k < i ==> season_doc_wf((#[trigger] infos@[k]).1),
            corpus_docs(entry_views(entries@), infos@, i as int) == season_corpus(infos@),
        decreases infos.len() - i,
    {
        let seasons = match infos[i].1.get("seasons") {
            Some(m) => match m.as_arr() {
                Some(ss) => ss,
                None => {
                    return Err(new_err("Failed to get seasons as array"));
                },
            },
            None => {
                return Err(new_err("Failed to get seasons"));
            },
        };
        let mut j: usize = 0;
        while j < seasons.len()
            invariant
                i < infos@.len(),
                j <= seasons@.len(),
                spec_get(infos@[i as int].1, "seasons"@) is Some,
                spec_as_arr(spec_get(infos@[i as int].1, "seasons"@)->Some_0) == Some(seasons@),
                forall|k: int| 0 <= k < i ==> season_doc_wf((#[trigger] infos@[k]).1),
                forall|k: int| 0 <= k < j ==> season_listing_wf(#[trigger] seasons@[k]),
                corpus_docs(
                    corpus_doc(entry_views(entries@), infos@[i as int].0, seasons@, j as int),
                    infos@,
                    i + 1,
                ) == season_corpus(infos@),
            decreases seasons.len() - j,
        {
            let name = match get_str_member(&seasons[j], "name") {
                Some(n) => n.clone(),
                None => {
                    proof {
                        assert(!season_listing_wf(seasons@[j as int]));
                        lemma_doc_not_wf(infos@[i as int].1, seasons@, j as int);
                    }
                    return Err(new_err("Failed to get season name"));
                },
            };
            let number = match seasons[j].get("season_number") {
                Some(m) => match m.as_int() {
                    Some(n) => n,
                    None => {
                        proof {
                            assert(!season_listing_wf(seasons@[j as int]));
                            lemma_doc_not_wf(infos@[i as int].1, seasons@, j as int);
                        }
                        return Err(new_err("Failed to get season number as a number"));
                    },
                },
                None => {
                    proof {
                        assert(!season_listing_wf(seasons@[j as int]));
                        lemma_doc_not_wf(infos@[i as int].1, seasons@, j as int);
                    }
                    return Err(new_err("Failed to get season number"));
                },
            };
            let ghost pre_views = entry_views(entries@);
            let ghost gname = name;
            let lang = infos[i].0.clone();
            let ghost glang = lang;
            proof {
                assert(glang == infos@[i as int].0);
                assert(season_listing_wf(seasons@[j as int]));
                assert(number as int == spec_as_int(
                    spec_get(seasons@[j as int], "season_number"@)->Some_0,
                )->Some_0);
                assert(gname == str_member(seasons@[j as int], "name"@)->Some_0);
            }
            match entry_pos(&entries, number) {
                Some(f) => {
                    let ghost old_entries = entries@;
                    push_name(&mut entries, f, lang, name);
                    proof {
                        assert forall|m: int|
                            0 <= m < entry_views(entries@).len() implies #[trigger] entry_views(
                            entries@,
                        )[m] == corpus_add(pre_views, number as int, glang, gname)[m] by {
                            if m != f {
                                assert(entries@[m] == old_entries[m]);
                            }
                        }
                        assert(entry_views(entries@) =~= corpus_add(
                            pre_views,
                            number as int,
                            glang,
                            gname,
                        ));
                    }
                },
                None => {
                    let mut names: Vec<(String, String)> = Vec::new();
                    names.push((lang, name));
                    let ghost old_entries = entries@;
                    entries.push(SeasonEntry { season_number: number, names });
                    proof {
                        assert(entries@.last().names@ =~= seq![(glang, gname)]);
                        assert forall|m: int|
                            0 <= m < entry_views(entries@).len() implies #[trigger] entry_views(
                            entries@,
                        )[m] == corpus_add(pre_views, number as int, glang, gname)[m] by {
                            if m < old_entries.len() {
                                assert(entries@[m] == old_entries[m]);
                            }
                        }
                        assert(entry_views(entries@) =~= corpus_add(
                            pre_views,
                            number as int,
                            glang,
                            gname,
                        ));
                    }
                },
            }
            proof {
                assert(corpus_doc(pre_views, infos@[i as int].0, seasons@, j as int)
                    == corpus_doc(entry_views(entries@), infos@[i as int].0, seasons@, j + 1));
            }
            j = j + 1;
        }
        proof {
            assert(season_doc_wf(infos@[i as int].1));
            assert(corpus_doc(entry_views(entries@), infos@[i as int].0, seasons@, j as int)
                == entry_views(entries@));
        }
        i = i + 1;
    }
    proof {
        assert(corpus_docs(entry_views(entries@), infos@, infos@.len() as int) == entry_views(
            entries@,
        ));
    }
    Ok(entries)
}

/// Adds one (language, name) pair to the entry at `f`, leaving every other
/// entry as it was.
fn push_name(entries: &mut Vec<SeasonEntry>, f: usize, lang: String, name: String)
    requires
        f < old(entries)@.len(),
    ensures
        final(entries)@.len() == old(entries)@.len(),
        final(entries)@[f as int].season_number == old(entries)@[f as int].season_number,
        final(entries)@[f as int].names@ == old(entries)@[f as int].names@.push((lang, name)),
        forall|k: int|
            0 <= k < old(entries)@.len() && k != f ==> #[trigger] final(entries)@[k] == old(
                entries,
            )@[k],
{
    let ghost old_names = entries@[f as int].names@;
    let mut names: Vec<(String, String)> = Vec::new();
    let n = entries[f].names.len();
    let mut m: usize = 0;
    while m < n
        invariant
            m <= n,
            f < entries@.len(),
            entries@ == old(entries)@,
            n == entries@[f as int].names@.len(),
            old_names == entries@[f as int].names@,
            names@ == old_names.take(m as int),
        decreases n - m,
    {
        let pair = (entries[f].names[m].0.clone(), entries[f].names[m].1.clone());
        names.push(pair);
        m = m + 1;
        proof {
            assert(names@ =~= old_names.take(m as int));
        }
    }
    proof {
        assert(names@ =~= old_names);
    }
    names.push((lang, name));
    let entry = SeasonEntry { season_number: entries[f].season_number, names };
    entries.set(f, entry);
}

/// The community-catalog subject named by a catalog answer: the text parsed
/// as JSON and the subject assembled from it.  It fails exactly when the
/// text is not JSON or the document lacks its cover image.
pub fn get_bangumi_subject(bangumi_subject_id: i32, text: &str) -> (r: Result<
    BangumiSubject,
    AnyError,
>)
    ensures
        match r {
            Ok(sub) => json_of(text@) matches Some(v) && subject_matches_doc(
                sub,
                bangumi_subject_id,
                v,
            ),
            Err(_) => json_of(text@) is None || !subject_doc_wf(json_of(text@)->Some_0),
        },
{
    match parse_json(text) {
        Some(json) => build_bangumi_subject(bangumi_subject_id, &json),
        None => Err(new_err("Failed to parse json")),
    }
}

/// The canonical episodes named by a catalog answer: the text parsed as JSON
/// and the list read from it.  It fails exactly when the text is not JSON or
/// the document has no episode array.
pub fn get_bangumi_episodes(bangumi_subject_id: i32, text: &str) -> (r: Result<
    Vec<BangumiEpisode>,
    AnyError,
>)
    ensures
        match r {
            Ok(v) => {
                &&& json_of(text@) matches Some(doc)
                &&& spec_get(json_of(text@)->Some_0, "data"@) matches Some(d)
                &&& spec_as_arr(spec_get(json_of(text@)->Some_0, "data"@)->Some_0) matches Some(es)
                &&& v@ == episodes_from_json(bangumi_subject_id, es)
            },
            Err(_) => {
                ||| json_of(text@) is None
                ||| spec_get(json_of(text@)->Some_0, "data"@) is None
                ||| spec_as_arr(spec_get(json_of(text@)->Some_0, "data"@)->Some_0) is None
            },
        },
{
    match parse_json(text) {
        Some(json) => parse_bangumi_episodes(bangumi_subject_id, &json),
        None => Err(new_err("Failed to parse json")),
    }
}

} // verus!
