//! The season-alias matcher: given, per candidate season number, its
//! localized names, and a list of subject aliases, picks the season whose
//! name matches an alias best.
//!
//! Aliases have their spelled-out CJK numerals turned into digits; both
//! aliases and season names lose the spaces of `第 N 季` and have
//! `シーズン N` turned into `第Nシーズン`.  The score of a pair is a
//! forward single-pass match: both pointers advance on a character match,
//! only the alias pointer on a mismatch.  The single highest-scoring pair
//! wins, earliest first on ties; a best score of zero or no pair at all
//! falls back to season one, preferring that season's primary-locale name,
//! then the subject's top-level localized name, then an empty name.

use vstd::prelude::*;
use crate::strutil::{
    chars_of, check_sub_at, copy_range, is_digit, is_digit_exec, lemma_run_len_skip, replace_chars,
    replace_seq, run_len, scan_run, str_eq, sub_at,
};

verus! {

/// One candidate season: its number and its localized names as (language,
/// name) pairs.
pub struct SeasonEntry {
    /// The candidate season number.
    pub season_number: i64,
    /// The localized season names, keyed by language tag.
    pub names: Vec<(String, String)>,
}

/// The spelled-out CJK numerals of an alias replaced by digits, compounds
/// first.
pub open spec fn norm_cjk(s: Seq<char>) -> Seq<char> {
    let s1 = replace_seq(s, "十一"@, "11"@);
    let s2 = replace_seq(s1, "十二"@, "12"@);
    let s3 = replace_seq(s2, "十三"@, "13"@);
    let s4 = replace_seq(s3, "十四"@, "14"@);
    let s5 = replace_seq(s4, "十五"@, "15"@);
    let s6 = replace_seq(s5, "十六"@, "16"@);
    let s7 = replace_seq(s6, "十七"@, "17"@);
    let s8 = replace_seq(s7, "十八"@, "18"@);
    let s9 = replace_seq(s8, "十九"@, "19"@);
    let s10 = replace_seq(s9, "二十"@, "20"@);
    let s11 = replace_seq(s10, "十"@, "10"@);
    let s12 = replace_seq(s11, "一"@, "1"@);
    let s13 = replace_seq(s12, "二"@, "2"@);
    let s14 = replace_seq(s13, "三"@, "3"@);
    let s15 = replace_seq(s14, "四"@, "4"@);
    let s16 = replace_seq(s15, "五"@, "5"@);
    let s17 = replace_seq(s16, "六"@, "6"@);
    let s18 = replace_seq(s17, "七"@, "7"@);
    let s19 = replace_seq(s18, "八"@, "8"@);
    replace_seq(s19, "九"@, "9"@)
}

/// The spaces of `第 N 季` removed from a season name.
pub open spec fn norm_spaces(s: Seq<char>) -> Seq<char> {
    replace_seq(replace_seq(s, "第 "@, "第"@), " 季"@, "季"@)
}

/// `シーズン N` and `シーズンN` rewritten as `第Nシーズン`, left to right.
pub open spec fn norm_szn(s: Seq<char>) -> Seq<char>
    decreases s.len(),
{
    if s.len() == 0 {
        Seq::<char>::empty()
    } else if sub_at(s, "シーズン"@, 0) && 4 < s.len() && is_digit(s[4]) && 1 <= run_len(s, 4)
        && 4 + run_len(s, 4) <= s.len() {
        let l = run_len(s, 4);
        seq!['第'] + s.subrange(4, 4 + l) + "シーズン"@ + norm_szn(s.skip(4 + l))
    } else if sub_at(s, "シーズン "@, 0) && 5 < s.len() && is_digit(s[5]) && 1 <= run_len(s, 5)
        && 5 + run_len(s, 5) <= s.len() {
        let l = run_len(s, 5);
        seq!['第'] + s.subrange(5, 5 + l) + "シーズン"@ + norm_szn(s.skip(5 + l))
    } else {
        seq![s[0]] + norm_szn(s.skip(1))
    }
}

/// The normalization an alias goes through before matching: CJK numerals to
/// digits, the season-marker spaces stripped, and the Japanese season form
/// rewritten — the same marker normalizations a season name gets.
pub open spec fn norm_alias(s: Seq<char>) -> Seq<char> {
    norm_szn(norm_spaces(norm_cjk(s)))
}

/// The normalization a season name goes through before matching.
pub open spec fn norm_name(s: Seq<char>) -> Seq<char> {
    norm_szn(norm_spaces(s))
}

/// The forward single-pass match length: both pointers advance on a match,
/// only the alias pointer on a mismatch.
pub open spec fn match_len(a: Seq<char>, b: Seq<char>) -> int
    decreases a.len(),
{
    if a.len() == 0 || b.len() == 0 {
        0
    } else if a[0] == b[0] {
        1 + match_len(a.skip(1), b.skip(1))
    } else {
        match_len(a.skip(1), b)
    }
}

/// The first name of the given language among a season's names, if any.
pub open spec fn lookup_name(names: Seq<(String, String)>, lang: Seq<char>) -> Option<Seq<char>>
    decreases names.len(),
{
    if names.len() == 0 {
        None
    } else if names[0].0@ == lang {
        Some(names[0].1@)
    } else {
        lookup_name(names.skip(1), lang)
    }
}

/// The primary-locale name a season carries, or nothing.
pub open spec fn zh_name_of(entry: SeasonEntry) -> Seq<char> {
    match lookup_name(entry.names@, "zh-CN"@) {
        Some(n) => n,
        None => Seq::<char>::empty(),
    }
}

/// The matcher's running state: best score so far, its season number, and
/// its season name.
pub struct MatchState {
    /// The best score so far, or `-1` before any pair was scored.
    pub score: int,
    /// The season number of the best pair.
    pub number: int,
    /// The primary-locale season name of the best pair.
    pub name: Seq<char>,
}

/// The state after scoring one (alias, name) pair: a strictly better score
/// takes over, so the earliest best pair wins.
pub open spec fn score_pair(
    st: MatchState,
    alias_n: Seq<char>,
    name: Seq<char>,
    number: int,
    zh: Seq<char>,
) -> MatchState {
    let m = match_len(alias_n, norm_name(name));
    if m > st.score {
        MatchState { score: m, number, name: zh }
    } else {
        st
    }
}

/// The state after scoring one alias against all of a season's names.
pub open spec fn scan_names(
    st: MatchState,
    alias_n: Seq<char>,
    names: Seq<(String, String)>,
    number: int,
    zh: Seq<char>,
    i: int,
) -> MatchState
    decreases names.len() - i,
{
    if i < 0 || i >= names.len() {
        st
    } else {
        scan_names(
            score_pair(st, alias_n, names[i].1@, number, zh),
            alias_n,
            names,
            number,
            zh,
            i + 1,
        )
    }
}

/// The state after scoring all aliases against one season.
pub open spec fn scan_aliases(
    st: MatchState,
    aliases: Seq<String>,
    names: Seq<(String, String)>,
    number: int,
    zh: Seq<char>,
    j: int,
) -> MatchState
    decreases aliases.len() - j,
{
    if j < 0 || j >= aliases.len() {
        st
    } else {
        scan_aliases(
            scan_names(st, norm_alias(aliases[j]@), names, number, zh, 0),
            aliases,
            names,
            number,
            zh,
            j + 1,
        )
    }
}

/// The state after scoring all aliases against all seasons, in order.
pub open spec fn scan_seasons(
    st: MatchState,
    seasons: Seq<SeasonEntry>,
    aliases: Seq<String>,
    k: int,
) -> MatchState
    decreases seasons.len() - k,
{
    if k < 0 || k >= seasons.len() {
        st
    } else {
        scan_seasons(
            scan_aliases(
                st,
                aliases,
                seasons[k].names@,
                seasons[k].season_number as int,
                zh_name_of(seasons[k]),
                0,
            ),
            seasons,
            aliases,
            k + 1,
        )
    }
}

/// The first season entry with the given number, if any.
pub open spec fn entry_with_number(seasons: Seq<SeasonEntry>, n: int) -> Option<SeasonEntry>
    decreases seasons.len(),
{
    if seasons.len() == 0 {
        None
    } else if seasons[0].season_number == n {
        Some(seasons[0])
    } else {
        entry_with_number(seasons.skip(1), n)
    }
}

/// The matcher's initial state.
pub open spec fn initial_state() -> MatchState {
    MatchState { score: -1, number: 0, name: Seq::<char>::empty() }
}

/// The name the fallback path picks for season one: season one's
/// primary-locale name if present and non-empty, else the subject's
/// top-level localized name, else nothing.
pub open spec fn fallback_name_spec(seasons: Seq<SeasonEntry>, fallback: Option<String>) -> Seq<
    char,
> {
    let from_one = match entry_with_number(seasons, 1) {
        Some(e) => zh_name_of(e),
        None => Seq::<char>::empty(),
    };
    if from_one.len() > 0 {
        from_one
    } else {
        match fallback {
            Some(f) => f@,
            None => Seq::<char>::empty(),
        }
    }
}

/// What the matcher decides: the highest-scoring pair's season number and
/// primary-locale name; with no pair scoring above zero, season one and the
/// fallback name.
pub open spec fn matcher_spec(
    seasons: Seq<SeasonEntry>,
    aliases: Seq<String>,
    fallback: Option<String>,
) -> (int, Seq<char>) {
    let st = scan_seasons(initial_state(), seasons, aliases, 0);
    if st.score <= 0 {
        (1, fallback_name_spec(seasons, fallback))
    } else {
        (st.number, st.name)
    }
}

/// The spelled-out CJK numerals of an alias replaced by digits.
fn norm_cjk_exec(s: &Vec<char>) -> (r: Vec<char>)
    ensures
        r@ == norm_cjk(s@),
{
    proof {
        reveal_strlit("十一");
        reveal_strlit("十二");
        reveal_strlit("十三");
        reveal_strlit("十四");
        reveal_strlit("十五");
        reveal_strlit("十六");
        reveal_strlit("十七");
        reveal_strlit("十八");
        reveal_strlit("十九");
        reveal_strlit("二十");
        reveal_strlit("十");
        reveal_strlit("一");
        reveal_strlit("二");
        reveal_strlit("三");
        reveal_strlit("四");
        reveal_strlit("五");
        reveal_strlit("六");
        reveal_strlit("七");
        reveal_strlit("八");
        reveal_strlit("九");
    }
    let s1 = replace_chars(s, &chars_of("十一"), &chars_of("11"));
    let s2 = replace_chars(&s1, &chars_of("十二"), &chars_of("12"));
    let s3 = replace_chars(&s2, &chars_of("十三"), &chars_of("13"));
    let s4 = replace_chars(&s3, &chars_of("十四"), &chars_of("14"));
    let s5 = replace_chars(&s4, &chars_of("十五"), &chars_of("15"));
    let s6 = replace_chars(&s5, &chars_of("十六"), &chars_of("16"));
    let s7 = replace_chars(&s6, &chars_of("十七"), &chars_of("17"));
    let s8 = replace_chars(&s7, &chars_of("十八"), &chars_of("18"));
    let s9 = replace_chars(&s8, &chars_of("十九"), &chars_of("19"));
    let s10 = replace_chars(&s9, &chars_of("二十"), &chars_of("20"));
    let s11 = replace_chars(&s10, &chars_of("十"), &chars_of("10"));
    let s12 = replace_chars(&s11, &chars_of("一"), &chars_of("1"));
    let s13 = replace_chars(&s12, &chars_of("二"), &chars_of("2"));
    let s14 = replace_chars(&s13, &chars_of("三"), &chars_of("3"));
    let s15 = replace_chars(&s14, &chars_of("四"), &chars_of("4"));
    let s16 = replace_chars(&s15, &chars_of("五"), &chars_of("5"));
    let s17 = replace_chars(&s16, &chars_of("六"), &chars_of("6"));
    let s18 = replace_chars(&s17, &chars_of("七"), &chars_of("7"));
    let s19 = replace_chars(&s18, &chars_of("八"), &chars_of("8"));
    replace_chars(&s19, &chars_of("九"), &chars_of("9"))
}

/// The spaces of `第 N 季` removed from a season name.
fn norm_spaces_exec(s: &Vec<char>) -> (r: Vec<char>)
    ensures
        r@ == norm_spaces(s@),
{
    proof {
        reveal_strlit("第 ");
        reveal_strlit(" 季");
    }
    let t = replace_chars(s, &chars_of("第 "), &chars_of("第"));
    replace_chars(&t, &chars_of(" 季"), &chars_of("季"))
}

/// `シーズン N` and `シーズンN` rewritten as `第Nシーズン`.
fn norm_szn_exec(s: &Vec<char>) -> (r: Vec<char>)
    ensures
        r@ == norm_szn(s@),
{
    let szn = chars_of("シーズン");
    let sznsp = chars_of("シーズン ");
    proof {
        reveal_strlit("シーズン");
        reveal_strlit("シーズン ");
    }
    let n = s.len();
    let mut out: Vec<char> = Vec::new();
    let mut i: usize = 0;
    proof {
        assert(s@.skip(0) =~= s@);
        assert(out@ + norm_szn(s@) =~= norm_szn(s@));
    }
    while i < n
        invariant
            i <= n == s@.len(),
            szn@ == "シーズン"@,
            sznsp@ == "シーズン "@,
            norm_szn(s@) == out@ + norm_szn(s@.skip(i as int)),
        decreases n - i,
    {
        proof {
            reveal_strlit("シーズン");
            reveal_strlit("シーズン ");
            let tl = s@.skip(i as int);
            if i + 4 <= n {
                assert(tl.subrange(0, 4) =~= s@.subrange(i as int, i + 4));
            }
            if i + 5 <= n {
                assert(tl.subrange(0, 5) =~= s@.subrange(i as int, i + 5));
            }
        }
        let plain = n - i > 4 && check_sub_at(s, &szn, i) && is_digit_exec(s[i + 4]);
        let spaced = !plain && n - i > 5 && check_sub_at(s, &sznsp, i) && is_digit_exec(s[i + 5]);
        if plain {
            let e = scan_run(s, i + 4);
            proof {
                reveal_strlit("シーズン");
                reveal_strlit("シーズン ");
                let tl = s@.skip(i as int);
                lemma_run_len_skip(s@, i as int, 4);
                crate::strutil::lemma_run_len(tl, 4);
                assert(sub_at(tl, "シーズン"@, 0));
                assert(tl[4] == s@[i + 4]);
                assert(tl.subrange(4, 4 + run_len(tl, 4)) =~= s@.subrange(i + 4, e as int));
                assert(tl.skip(4 + run_len(tl, 4)) =~= s@.skip(e as int));
            }
            out.push('第');
            let mut digits = copy_range(s, i + 4, e);
            out.append(&mut digits);
            let mut t = chars_of("シーズン");
            out.append(&mut t);
            proof {
                assert(norm_szn(s@) =~= out@ + norm_szn(s@.skip(e as int)));
            }
            i = e;
        } else if spaced {
            let e = scan_run(s, i + 5);
            proof {
                reveal_strlit("シーズン");
                reveal_strlit("シーズン ");
                let tl = s@.skip(i as int);
                lemma_run_len_skip(s@, i as int, 5);
                crate::strutil::lemma_run_len(tl, 5);
                assert(!(sub_at(tl, "シーズン"@, 0) && 4 < tl.len() && is_digit(tl[4])));
                assert(sub_at(tl, "シーズン "@, 0));
                assert(tl[5] == s@[i + 5]);
                assert(tl.subrange(5, 5 + run_len(tl, 5)) =~= s@.subrange(i + 5, e as int));
                assert(tl.skip(5 + run_len(tl, 5)) =~= s@.skip(e as int));
            }
            out.push('第');
            let mut digits = copy_range(s, i + 5, e);
            out.append(&mut digits);
            let mut t = chars_of("シーズン");
            out.append(&mut t);
            proof {
                assert(norm_szn(s@) =~= out@ + norm_szn(s@.skip(e as int)));
            }
            i = e;
        } else {
            proof {
                reveal_strlit("シーズン");
                reveal_strlit("シーズン ");
                let tl = s@.skip(i as int);
                assert(tl.skip(1) =~= s@.skip(i as int + 1));
                assert(seq![tl[0]] =~= seq![s@[i as int]]);
            }
            out.push(s[i]);
            i = i + 1;
            proof {
                assert(norm_szn(s@) =~= out@ + norm_szn(s@.skip(i as int)));
            }
        }
    }
    proof {
        assert(s@.skip(n as int) =~= Seq::<char>::empty());
        assert(out@ + Seq::<char>::empty() =~= out@);
    }
    out
}

/// The forward single-pass match length of two normalized names.
fn match_len_exec(a: &Vec<char>, b: &Vec<char>) -> (r: usize)
    ensures
        r as int == match_len(a@, b@),
{
    let ghost av = a@;
    let ghost bv = b@;
    let mut i: usize = 0;
    let mut j: usize = 0;
    let mut m: usize = 0;
    proof {
        assert(av.skip(0) =~= av);
        assert(bv.skip(0) =~= bv);
    }
    while i < a.len() && j < b.len()
        invariant
            i <= av.len(),
            j <= bv.len(),
            m <= j,
            a@ == av,
            b@ == bv,
            match_len(av, bv) == m + match_len(av.skip(i as int), bv.skip(j as int)),
        decreases av.len() - i,
    {
        proof {
            let ta = av.skip(i as int);
            let tb = bv.skip(j as int);
            assert(ta[0] == av[i as int]);
            assert(tb[0] == bv[j as int]);
            assert(ta.skip(1) =~= av.skip(i as int + 1));
            assert(tb.skip(1) =~= bv.skip(j as int + 1));
        }
        if a[i] == b[j] {
            m = m + 1;
            i = i + 1;
            j = j + 1;
        } else {
            i = i + 1;
        }
    }
    proof {
        if i >= av.len() {
            assert(av.skip(i as int) =~= Seq::<char>::empty());
        } else {
            assert(bv.skip(j as int) =~= Seq::<char>::empty());
        }
    }
    m
}

/// The first name of the given language among a season's names, if any.
fn lookup_name_exec<'a>(names: &'a Vec<(String, String)>, lang: &str) -> (r: Option<&'a String>)
    ensures
        match r {
            Some(nm) => lookup_name(names@, lang@) == Some(nm@),
            None => lookup_name(names@, lang@) is None,
        },
{
    let ghost all = names@;
    let mut i: usize = 0;
    proof {
        assert(all.skip(0) =~= all);
    }
    while i < names.len()
        invariant
            i <= all.len(),
            names@ == all,
            lookup_name(all, lang@) == lookup_name(all.skip(i as int), lang@),
        decreases all.len() - i,
    {
        proof {
            assert(all.skip(i as int)[0] == all[i as int]);
            assert(all.skip(i as int).skip(1) =~= all.skip(i as int + 1));
        }
        if str_eq(names[i].0.as_str(), lang) {
            return Some(&names[i].1);
        }
        i = i + 1;
    }
    proof {
        assert(all.skip(i as int) =~= Seq::<(String, String)>::empty());
    }
    None
}

/// The primary-locale name of a season entry, or an empty string.
fn zh_name_exec(entry: &SeasonEntry) -> (r: String)
    ensures
        r@ == zh_name_of(*entry),
{
    match lookup_name_exec(&entry.names, "zh-CN") {
        Some(nm) => nm.clone(),
        None => String::new(),
    }
}

/// The alias normalized for matching.
fn norm_alias_exec(alias: &String) -> (r: Vec<char>)
    ensures
        r@ == norm_alias(alias@),
{
    let v = chars_of(alias.as_str());
    let c = norm_cjk_exec(&v);
    let d = norm_spaces_exec(&c);
    norm_szn_exec(&d)
}

/// The season name normalized for matching.
fn norm_name_exec(name: &String) -> (r: Vec<char>)
    ensures
        r@ == norm_name(name@),
{
    let v = chars_of(name.as_str());
    let c = norm_spaces_exec(&v);
    norm_szn_exec(&c)
}

/// Picks the season whose localized name matches a subject alias best: the
/// returned pair is the winning season number with that season's
/// primary-locale name, or season one with the fallback name when nothing
/// scores above zero.  It never fails, whatever the inputs.
pub fn tmdb_search_season_in_infos(
    seasons: &Vec<SeasonEntry>,
    aliases: &Vec<String>,
    fallback: &Option<String>,
) -> (r: (i64, String))
    ensures
        r.0 as int == matcher_spec(seasons@, aliases@, *fallback).0,
        r.1@ == matcher_spec(seasons@, aliases@, *fallback).1,
{
    let ghost sv = seasons@;
    let ghost av = aliases@;

    let mut best_score: Option<usize> = None;
    let mut best_number: i64 = 0;
    let mut best_name: String = String::new();
    let ghost mut st = initial_state();
    proof {
        assert(st.score == -1 && st.number == 0 && st.name =~= Seq::<char>::empty());
    }

    let mut k: usize = 0;
    while k < seasons.len()
        invariant
            k <= sv.len(),
            seasons@ == sv,
            aliases@ == av,
            st.score == score_val(best_score),
            best_number as int == st.number,
            best_name@ == st.name,
            scan_seasons(initial_state(), sv, av, 0) == scan_seasons(st, sv, av, k as int),
        decreases sv.len() - k,
    {
        let entry = &seasons[k];
        let zh = zh_name_exec(entry);
        let ghost sid = entry.season_number as int;
        let ghost pre_season_st = st;
        let mut j: usize = 0;
        while j < aliases.len()
            invariant
                j <= av.len(),
                k < sv.len(),
                seasons@ == sv,
                aliases@ == av,
                entry == sv[k as int],
                zh@ == zh_name_of(sv[k as int]),
                sid == entry.season_number as int,
                st.score == score_val(best_score),
                best_number as int == st.number,
                best_name@ == st.name,
                scan_aliases(pre_season_st, av, entry.names@, sid, zh_name_of(sv[k as int]), 0)
                    == scan_aliases(st, av, entry.names@, sid, zh_name_of(sv[k as int]), j as int),
            decreases av.len() - j,
        {
            let alias_n = norm_alias_exec(&aliases[j]);
            let ghost pre_alias_st = st;
            let mut i: usize = 0;
            while i < entry.names.len()
                invariant
                    i <= entry.names@.len(),
                    k < sv.len(),
                    j < av.len(),
                    seasons@ == sv,
                    aliases@ == av,
                    entry == sv[k as int],
                    zh@ == zh_name_of(sv[k as int]),
                    sid == entry.season_number as int,
                    alias_n@ == norm_alias(av[j as int]@),
                    st.score == score_val(best_score),
                    best_number as int == st.number,
                    best_name@ == st.name,
                    scan_names(pre_alias_st, norm_alias(av[j as int]@), entry.names@, sid,
                        zh_name_of(sv[k as int]), 0) == scan_names(st, norm_alias(av[j as int]@),
                        entry.names@, sid, zh_name_of(sv[k as int]), i as int),
                decreases entry.names@.len() - i,
            {
                let name_n = norm_name_exec(&entry.names[i].1);
                let m = match_len_exec(&alias_n, &name_n);
                let better = match best_score {
                    None => true,
                    Some(v) => m > v,
                };
                if better {
                    best_score = Some(m);
                    best_number = entry.season_number;
                    best_name = zh.clone();
                }
                proof {
                    st = score_pair(st, norm_alias(av[j as int]@), entry.names@[i as int].1@, sid,
                        zh_name_of(sv[k as int]));
                }
                i = i + 1;
            }
            j = j + 1;
        }
        k = k + 1;
    }

    let low = match best_score {
        None => true,
        Some(v) => v == 0,
    };
    if low {
        let name_from_one = match find_entry_one(seasons) {
            Some(e) => zh_name_exec(e),
            None => String::new(),
        };
        let name = if name_from_one.as_str().is_empty() {
            match fallback {
                Some(f) => f.clone(),
                None => String::new(),
            }
        } else {
            name_from_one
        };
        (1, name)
    } else {
        (best_number, best_name)
    }
}

/// The score a running best stands for: none scored yet counts as minus one.
pub open spec fn score_val(b: Option<usize>) -> int {
    match b {
        None => -1,
        Some(v) => v as int,
    }
}

/// The first season entry with number one, if any.
fn find_entry_one<'a>(seasons: &'a Vec<SeasonEntry>) -> (r: Option<&'a SeasonEntry>)
    ensures
        match r {
            Some(e) => entry_with_number(seasons@, 1) == Some(*e),
            None => entry_with_number(seasons@, 1) is None,
        },
{
    let ghost all = seasons@;
    let mut i: usize = 0;
    proof {
        assert(all.skip(0) =~= all);
    }
    while i < seasons.len()
        invariant
            i <= all.len(),
            seasons@ == all,
            entry_with_number(all, 1) == entry_with_number(all.skip(i as int), 1),
        decreases all.len() - i,
    {
        proof {
            assert(all.skip(i as int)[0] == all[i as int]);
            assert(all.skip(i as int).skip(1) =~= all.skip(i as int + 1));
        }
        if seasons[i].season_number == 1 {
            return Some(&seasons[i]);
        }
        i = i + 1;
    }
    proof {
        assert(all.skip(i as int) =~= Seq::<SeasonEntry>::empty());
    }
    None
}

/// A match length never exceeds the alias length.
pub proof fn lemma_match_len_bound(a: Seq<char>, b: Seq<char>)
    ensures
        0 <= match_len(a, b) <= a.len(),
    decreases a.len(),
{
    if a.len() > 0 && b.len() > 0 {
        if a[0] == b[0] {
            lemma_match_len_bound(a.skip(1), b.skip(1));
        } else {
            lemma_match_len_bound(a.skip(1), b);
        }
    }
}

} // verus!
