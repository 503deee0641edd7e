//! Deciding what the download client is told: which library items to add,
//! which existing torrents to move, where a torrent is stored, and what its
//! one file is renamed to.  The client itself is an external collaborator;
//! talking to it happens outside the library.

use vstd::prelude::*;
use crate::detail_page::last_sub;
use crate::feed::find_at;
use crate::library::{find_season, AnimeSeason, AnimeSeasonItem, Library};
use crate::strutil::{
    chars_of, check_sub_at, copy_range, dec_digits, i32_to_string, int_str, string_from, sub_at,
};

verus! {

/// The last occurrence of `t` in `s`, as `last_sub` sees it.
fn rfind_last(s: &Vec<char>, t: &Vec<char>) -> (r: Option<usize>)
    requires
        t@.len() > 0,
    ensures
        match r {
            Some(i) => i as int == last_sub(s@, t@, s@.len() - t@.len()) && i + t@.len()
                <= s@.len() && sub_at(s@, t@, i as int),
            None => last_sub(s@, t@, s@.len() - t@.len()) == -1,
        },
{
    let n = s.len();
    let tl = t.len();
    if n < tl {
        proof {
            lemma_last_sub_short(s@, t@, s@.len() - t@.len());
        }
        return None;
    }
    let mut i: usize = n - tl;
    loop
        invariant
            i + tl <= n == s@.len(),
            tl == t@.len() > 0,
            last_sub(s@, t@, s@.len() - t@.len()) == last_sub(s@, t@, i as int),
        decreases i,
    {
        if check_sub_at(s, t, i) {
            return Some(i);
        }
        if i == 0 {
            proof {
                assert(last_sub(s@, t@, -1) == -1);
            }
            return None;
        }
        i = i - 1;
    }
}

/// A pattern longer than the text never occurs in it.
proof fn lemma_last_sub_short(t: Seq<char>, p: Seq<char>, i: int)
    requires
        p.len() > t.len(),
    ensures
        last_sub(t, p, i) == -1,
    decreases i + 1,
{
    if i >= 0 {
        assert(!sub_at(t, p, i));
        lemma_last_sub_short(t, p, i - 1);
    }
}

/// The torrent hash inside a magnet locator: everything after the last hash
/// marker (or the whole locator when the marker is absent), cut at the first
/// ampersand.
pub open spec fn hash_of_maglink(s: Seq<char>) -> Seq<char> {
    let p = last_sub(s, "btih:"@, s.len() - 5);
    let h = if p < 0 {
        s
    } else {
        s.subrange(p + 5, s.len() as int)
    };
    let a = find_at(h, "&"@, 0);
    if a < 0 {
        h
    } else {
        h.take(a)
    }
}

/// The torrent hash inside a magnet locator.
pub fn maglink_to_hash(magnet_link: &String) -> (r: String)
    ensures
        r@ == hash_of_maglink(magnet_link@),
{
    proof {
        reveal_strlit("btih:");
        reveal_strlit("&");
    }
    let s = chars_of(magnet_link.as_str());
    let n = s.len();
    let marker = chars_of("btih:");
    let h: Vec<char> = match rfind_last(&s, &marker) {
        Some(i) => {
            let r = copy_range(&s, i + 5, n);
            proof {
                assert(r@ =~= s@.subrange(i + 5, s@.len() as int));
            }
            r
        },
        None => s,
    };
    let amp = chars_of("&");
    let cut: Vec<char> = match crate::feed::find_from(&h, &amp, 0) {
        Some(a) => {
            let r = copy_range(&h, 0, a);
            proof {
                assert(r@ =~= h@.take(a as int));
            }
            r
        },
        None => h,
    };
    string_from(&cut)
}

/// Whether a character may not stand in a stored series name.
pub open spec fn is_path_special(c: char) -> bool {
    c == '\\' || c == '/' || c == ':' || c == '*' || c == '?' || c == '"' || c == '<' || c == '>'
        || c == '|'
}

/// A series name with every path-special character removed.
pub open spec fn sanitized(s: Seq<char>) -> Seq<char>
    decreases s.len(),
{
    if s.len() == 0 {
        Seq::<char>::empty()
    } else if is_path_special(s[0]) {
        sanitized(s.skip(1))
    } else {
        seq![s[0]] + sanitized(s.skip(1))
    }
}

/// A series name with every path-special character removed.
pub fn sanitize_series_name(name: &str) -> (r: String)
    ensures
        r@ == sanitized(name@),
{
    let s = chars_of(name);
    let n = s.len();
    let mut out: Vec<char> = Vec::new();
    let mut i: usize = 0;
    proof {
        assert(s@.skip(0) =~= s@);
        assert(out@ + sanitized(s@) =~= sanitized(s@));
    }
    while i < n
        invariant
            i <= n == s@.len(),
            s@ == name@,
            sanitized(name@) == out@ + sanitized(s@.skip(i as int)),
        decreases n - i,
    {
        proof {
            assert(s@.skip(i as int)[0] == s@[i as int]);
            assert(s@.skip(i as int).skip(1) =~= s@.skip(i as int + 1));
            assert(seq![s@[i as int]] =~= s@.skip(i as int).take(1));
        }
        let c = s[i];
        if !(c == '\\' || c == '/' || c == ':' || c == '*' || c == '?' || c == '"' || c == '<'
            || c == '>' || c == '|') {
            out.push(c);
        }
        i = i + 1;
    }
    proof {
        assert(s@.skip(n as int) =~= Seq::<char>::empty());
        assert(out@ + Seq::<char>::empty() =~= out@);
    }
    string_from(&out)
}

/// The series name an item is stored under: the season's display name when
/// the season is known, else the item's secondary-catalog name, else the
/// feed's subject name.
pub open spec fn series_name_for(item: AnimeSeasonItem, season: Option<AnimeSeason>) -> Seq<
    char,
> {
    match season {
        Some(sea) => sea.disp_series_name@,
        None => if item.tmdb_series_name@.len() == 0 {
            item.mikan_subject_name@
        } else {
            item.tmdb_series_name@
        },
    }
}

/// The season number an item is stored under.
pub open spec fn season_num_for(item: AnimeSeasonItem, season: Option<AnimeSeason>) -> int {
    match season {
        Some(sea) => sea.disp_season_num as int,
        None => if item.tmdb_parsed_season_num == -1 {
            item.bangumi_parsed_season_num as int
        } else {
            item.tmdb_parsed_season_num as int
        },
    }
}

/// Where an item's torrent is stored: the download directory, the sanitized
/// series name, and a per-season directory.
pub open spec fn savepath_for(
    item: AnimeSeasonItem,
    season: Option<AnimeSeason>,
    download_dir: Seq<char>,
) -> Seq<char> {
    download_dir + "/"@ + sanitized(series_name_for(item, season)) + "/Season "@ + int_str(
        season_num_for(item, season),
    )
}

/// Where an item's torrent is stored.
pub fn item_to_savepath(
    item: &AnimeSeasonItem,
    season: &Option<AnimeSeason>,
    download_dir: &str,
) -> (r: String)
    ensures
        r@ == savepath_for(*item, *season, download_dir@),
{
    let series = match season {
        Some(sea) => sanitize_series_name(sea.disp_series_name.as_str()),
        None => {
            if item.tmdb_series_name.as_str().is_empty() {
                sanitize_series_name(item.mikan_subject_name.as_str())
            } else {
                sanitize_series_name(item.tmdb_series_name.as_str())
            }
        },
    };
    let num = match season {
        Some(sea) => sea.disp_season_num,
        None => {
            if item.tmdb_parsed_season_num == -1 {
                item.bangumi_parsed_season_num
            } else {
                item.tmdb_parsed_season_num
            }
        },
    };
    let mut out = chars_of(download_dir);
    let mut part1 = chars_of("/");
    out.append(&mut part1);
    let mut part2 = chars_of(series.as_str());
    out.append(&mut part2);
    let mut part3 = chars_of("/Season ");
    out.append(&mut part3);
    let numstr = i32_to_string(num);
    let mut part4 = chars_of(numstr.as_str());
    out.append(&mut part4);
    proof {
        assert(out@ =~= savepath_for(*item, *season, download_dir@));
    }
    string_from(&out)
}

/// A number padded to two places, as the rename pattern writes it.
pub open spec fn pad2(n: int) -> Seq<char> {
    if 0 <= n <= 9 {
        seq!['0'] + dec_digits(n)
    } else {
        int_str(n)
    }
}

/// The extension of a file name: everything after its last dot, or the whole
/// name when it has no dot.
pub open spec fn extension_of(name: Seq<char>) -> Seq<char> {
    let p = last_sub(name, "."@, name.len() - 1);
    if p < 0 {
        name
    } else {
        name.subrange(p + 1, name.len() as int)
    }
}

/// The name an item's one torrent file is renamed to: the series name, the
/// two-place season and episode numbers, and the old file's extension.
pub open spec fn torrent_file_name_for(
    series_name: Seq<char>,
    season_num: int,
    episode_num: int,
    old_name: Seq<char>,
) -> Seq<char> {
    series_name + " S"@ + pad2(season_num) + "E"@ + pad2(episode_num) + "."@ + extension_of(
        old_name,
    )
}

/// The name an item's one torrent file is renamed to.
pub fn torrent_file_name(
    series_name: &str,
    season_num: i32,
    episode_num: i32,
    old_name: &str,
) -> (r: String)
    ensures
        r@ == torrent_file_name_for(series_name@, season_num as int, episode_num as int, old_name@),
{
    proof {
        reveal_strlit(".");
    }
    let mut out = chars_of(series_name);
    let mut p1 = chars_of(" S");
    out.append(&mut p1);
    let mut p2 = pad2_chars(season_num);
    out.append(&mut p2);
    let mut p3 = chars_of("E");
    out.append(&mut p3);
    let mut p4 = pad2_chars(episode_num);
    out.append(&mut p4);
    let mut p5 = chars_of(".");
    out.append(&mut p5);
    let old = chars_of(old_name);
    let ol = old.len();
    let dot = chars_of(".");
    let mut ext: Vec<char> = match rfind_last(&old, &dot) {
        Some(p) => {
            proof {
                reveal_strlit(".");
                assert(p + 1 <= ol);
            }
            let r = copy_range(&old, p + 1, ol);
            proof {
                assert(r@ =~= old@.subrange(p + 1, old@.len() as int));
            }
            r
        },
        None => old,
    };
    out.append(&mut ext);
    proof {
        assert(out@ =~= torrent_file_name_for(series_name@, season_num as int,
            episode_num as int, old_name@));
    }
    string_from(&out)
}

/// A number padded to two places, as characters.
fn pad2_chars(n: i32) -> (r: Vec<char>)
    ensures
        r@ == pad2(n as int),
{
    let numstr = i32_to_string(n);
    if n >= 0 && n <= 9 {
        let mut out: Vec<char> = Vec::new();
        out.push('0');
        let mut d = chars_of(numstr.as_str());
        out.append(&mut d);
        proof {
            assert(out@ =~= pad2(n as int));
        }
        out
    } else {
        chars_of(numstr.as_str())
    }
}

/// The season record behind a library item, if its season is stored.
pub fn item_to_series_info(lib: &Library, item: &AnimeSeasonItem) -> (r: Option<AnimeSeason>)
    ensures
        match r {
            Some(sea) => find_season(
                lib.seasons@,
                item.mikan_subject_id as int,
                item.mikan_subgroup_id as int,
            ) == Some(sea),
            None => find_season(
                lib.seasons@,
                item.mikan_subject_id as int,
                item.mikan_subgroup_id as int,
            ) is None,
        },
{
    lib.read_season_info(item.mikan_subject_id, item.mikan_subgroup_id)
}

/// Whether some hash of the list reads the same as the given one.
pub open spec fn hash_known(hashes: Seq<String>, h: Seq<char>) -> bool {
    exists|k: int| 0 <= k < hashes.len() && (#[trigger] hashes[k])@ == h
}

/// The items whose torrents the client does not hold yet, in library order.
pub open spec fn to_download_spec(items: Seq<AnimeSeasonItem>, hashes: Seq<String>) -> Seq<
    AnimeSeasonItem,
>
    decreases items.len(),
{
    if items.len() == 0 {
        Seq::<AnimeSeasonItem>::empty()
    } else {
        let rest = to_download_spec(items.skip(1), hashes);
        if !hash_known(hashes, hash_of_maglink(items[0].mikan_item_magnet_link@)) {
            seq![items[0]] + rest
        } else {
            rest
        }
    }
}

/// The items whose torrents the client already holds, in library order.
pub open spec fn to_move_spec(items: Seq<AnimeSeasonItem>, hashes: Seq<String>) -> Seq<
    AnimeSeasonItem,
>
    decreases items.len(),
{
    if items.len() == 0 {
        Seq::<AnimeSeasonItem>::empty()
    } else {
        let rest = to_move_spec(items.skip(1), hashes);
        if hash_known(hashes, hash_of_maglink(items[0].mikan_item_magnet_link@)) {
            seq![items[0]] + rest
        } else {
            rest
        }
    }
}

/// Splits a batch of library items against the client's torrent list: the
/// first vector holds the items to add, the second the items whose existing
/// torrents are re-placed and re-tagged.
pub fn plan_downloads(items: &Vec<AnimeSeasonItem>, downloader_hashes: &Vec<String>) -> (r: (
    Vec<AnimeSeasonItem>,
    Vec<AnimeSeasonItem>,
))
    ensures
        r.0@ == to_download_spec(items@, downloader_hashes@),
        r.1@ == to_move_spec(items@, downloader_hashes@),
{
    let ghost all = items@;
    let ghost hs = downloader_hashes@;
    let mut down: Vec<AnimeSeasonItem> = Vec::new();
    let mut mv: Vec<AnimeSeasonItem> = Vec::new();
    let mut i: usize = 0;
    proof {
        assert(all.skip(0) =~= all);
        assert(down@ + to_download_spec(all, hs) =~= to_download_spec(all, hs));
        assert(mv@ + to_move_spec(all, hs) =~= to_move_spec(all, hs));
    }
    while i < items.len()
        invariant
            i <= all.len(),
            items@ == all,
            downloader_hashes@ == hs,
            to_download_spec(all, hs) == down@ + to_download_spec(all.skip(i as int), hs),
            to_move_spec(all, hs) == mv@ + to_move_spec(all.skip(i as int), hs),
        decreases all.len() - i,
    {
        proof {
            assert(all.skip(i as int)[0] == all[i as int]);
            assert(all.skip(i as int).skip(1) =~= all.skip(i as int + 1));
        }
        let h = maglink_to_hash(&items[i].mikan_item_magnet_link);
        let mut known = false;
        let mut k: usize = 0;
        while k < downloader_hashes.len()
            invariant
                k <= hs.len(),
                downloader_hashes@ == hs,
                h@ == hash_of_maglink(all[i as int].mikan_item_magnet_link@),
                i < all.len(),
                items@ == all,
                known ==> hash_known(hs, h@),
                !known ==> forall|m: int| 0 <= m < k ==> (#[trigger] hs[m])@ != h@,
            decreases downloader_hashes.len() - k,
        {
            if crate::strutil::str_eq(downloader_hashes[k].as_str(), h.as_str()) {
                known = true;
                proof {
                    assert(hs[k as int]@ == h@);
                }
            }
            k = k + 1;
        }
        if known {
            mv.push(items[i].clone());
        } else {
            proof {
                assert(!hash_known(hs, h@));
            }
            down.push(items[i].clone());
        }
        i = i + 1;
    }
    proof {
        assert(all.skip(i as int) =~= Seq::<AnimeSeasonItem>::empty());
        assert(down@ + Seq::<AnimeSeasonItem>::empty() =~= down@);
        assert(mv@ + Seq::<AnimeSeasonItem>::empty() =~= mv@);
    }
    (down, mv)
}

} // verus!
