//! Scraping a release's detail page.  The page is read through fixed markup
//! anchors — brittle by design: an anchor change upstream is a breaking
//! change.  A missing anchor fails the single release, never a batch.

use vstd::prelude::*;
use crate::errors::{new_err, AnyError};
use crate::feed::find_at;
use crate::strutil::{
    chars_of, contains_sub, copy_range, digits_val, lemma_digits_val_bound, lemma_pow10_mono,
    lemma_run_len, parse_digits, pow10, run_len, scan_run, string_from, sub_at,
};

verus! {

/// What decoding HTML character references yields: a function of the text
/// alone.
pub uninterp spec fn html_decoded(s: Seq<char>) -> Seq<char>;

/// Relies on html_escape::decode_html_entities: only exact named and numeric
/// character references ending in a semicolon are decoded, and text without
/// an ampersand comes back unchanged.
#[verifier::external_body]
fn decode_entities(s: &str) -> (r: String)
    ensures
        r@ == html_decoded(s@),
        !contains_sub(s@, "&"@) ==> r@ == s@,
{
    html_escape::decode_html_entities(s).into_owned()
}

/// The text of the first element after `anchor`: at the first `>` at or
/// after the anchor's `<a`-or-own position, up to the next `<`.
pub open spec fn anchored_text(s: Seq<char>, start_from: int) -> Option<(Seq<char>, int)> {
    let st = find_at(s, ">"@, start_from);
    if st < start_from {
        None
    } else {
        let en = find_at(s, "<"@, st);
        if en < st {
            None
        } else {
            Some((s.subrange(st + 1, en), en))
        }
    }
}

/// The subject title's raw text: after the `bangumi-title` anchor, the text
/// of the following link element.
pub open spec fn raw_subject_title(s: Seq<char>) -> Option<Seq<char>> {
    let t = find_at(s, "bangumi-title"@, 0);
    if t < 0 {
        None
    } else {
        let l = find_at(s, "<a"@, t);
        if l < t {
            None
        } else {
            match anchored_text(s, l) {
                Some(p) => Some(p.0),
                None => None,
            }
        }
    }
}

/// The release group's raw name: the text of the element after the
/// `magnet-link-wrap` anchor.
pub open spec fn raw_subgroup(s: Seq<char>) -> Option<Seq<char>> {
    let g = find_at(s, "magnet-link-wrap"@, 0);
    if g < 0 {
        None
    } else {
        match anchored_text(s, g) {
            Some(p) => Some(p.0),
            None => None,
        }
    }
}

/// The raw magnet locator: between the `href="magnet:` anchor (minus its
/// attribute prefix) and the closing quote.
pub open spec fn raw_magnet(s: Seq<char>) -> Option<Seq<char>> {
    let m = find_at(s, "href=\"magnet:"@, 0);
    if m < 0 {
        None
    } else {
        let st = find_at(s, "\">"@, m);
        if st < m {
            None
        } else {
            Some(s.subrange(m + 6, st))
        }
    }
}

/// The raw per-episode title: after the `episode-title">` anchor up to the
/// next `<`.
pub open spec fn raw_episode_title(s: Seq<char>) -> Option<Seq<char>> {
    let e = find_at(s, "episode-title\">"@, 0);
    if e < 0 {
        None
    } else {
        let en = find_at(s, "<"@, e);
        if en < e {
            None
        } else {
            Some(s.subrange(e + 15, en))
        }
    }
}

/// The decoded episode title with its trailing bracketed suffix stripped:
/// everything before the last `" ["`.
pub open spec fn strip_suffix(t: Seq<char>) -> Option<Seq<char>> {
    let r = last_sub(t, " ["@, t.len() - 2);
    if r < 0 {
        None
    } else {
        Some(t.take(r))
    }
}

/// The last position at or below `i` where `p` occurs in `t`.
pub open spec fn last_sub(t: Seq<char>, p: Seq<char>, i: int) -> int
    decreases i + 1,
{
    if i < 0 {
        -1
    } else if sub_at(t, p, i) {
        i
    } else {
        last_sub(t, p, i - 1)
    }
}

/// The number written after an anchor, ended by the given delimiter; it must
/// be a plain run of one to nine digits.
pub open spec fn number_after(s: Seq<char>, anchor: Seq<char>, delim: char) -> Option<int> {
    let p = find_at(s, anchor, 0);
    if p < 0 {
        None
    } else {
        let d = p + anchor.len();
        let l = run_len(s, d);
        if 1 <= l <= 9 && d + l < s.len() && s[d + l] == delim {
            Some(digits_val(s.subrange(d, d + l)))
        } else {
            None
        }
    }
}

/// The cover image's address: the quoted style path after the
/// `bangumi-poster` anchor, prefixed with the feed's host; anything missing
/// leaves it empty.
pub open spec fn poster_path(s: Seq<char>) -> Seq<char> {
    let o = find_at(s, "bangumi-poster"@, 0);
    if o < 0 {
        Seq::<char>::empty()
    } else {
        let u = find_at(s, "url('"@, o);
        if u < o {
            Seq::<char>::empty()
        } else {
            let en = find_at(s, "'"@, u + 5);
            if en < u + 5 {
                Seq::<char>::empty()
            } else {
                "https://mikanime.tv"@ + s.subrange(u + 5, en)
            }
        }
    }
}

/// Everything scraped off one release's detail page.
pub struct EpisodePage {
    /// The subject's display title, decoded.
    pub subject_title: String,
    /// The release group's name, decoded.
    pub subgroup_name: String,
    /// The magnet locator, decoded.
    pub magnet_link: String,
    /// The per-episode title, decoded, its bracketed suffix stripped.
    pub episode_title: String,
    /// The feed-scoped subject the page belongs to.
    pub mikan_subject_id: i32,
    /// The feed-scoped release group.
    pub mikan_subgroup_id: i32,
    /// The subject's cover image, or empty.
    pub poster_url: String,
}

/// Whether every anchor chain of the page yields its field.
pub open spec fn page_wf(s: Seq<char>) -> bool {
    &&& raw_subject_title(s) is Some
    &&& raw_subgroup(s) is Some
    &&& raw_magnet(s) is Some
    &&& raw_episode_title(s) matches Some(t) && strip_suffix(html_decoded(t)) is Some
    &&& number_after(s, "?bangumiId="@, '&') is Some
    &&& number_after(s, "&subgroupid="@, '"') is Some
}

/// How a scraped page relates to the document it was scraped from.
pub open spec fn page_matches(p: EpisodePage, s: Seq<char>) -> bool {
    &&& p.subject_title@ == html_decoded(raw_subject_title(s)->Some_0)
    &&& p.subgroup_name@ == html_decoded(raw_subgroup(s)->Some_0)
    &&& p.magnet_link@ == html_decoded(raw_magnet(s)->Some_0)
    &&& p.episode_title@ == strip_suffix(html_decoded(raw_episode_title(s)->Some_0))->Some_0
    &&& p.mikan_subject_id as int == number_after(s, "?bangumiId="@, '&')->Some_0
    &&& p.mikan_subgroup_id as int == number_after(s, "&subgroupid="@, '"')->Some_0
    &&& p.poster_url@ == poster_path(s)
}

/// Scrapes one release's detail page: subject title, release group, magnet
/// locator, per-episode title, the feed-scoped subject and subgroup, and the
/// cover image.  It fails exactly when an anchor chain is broken, and then
/// fails this single release only.
pub fn extract_episode_page(html: &str) -> (r: Result<EpisodePage, AnyError>)
    ensures
        match r {
            Ok(p) => page_wf(html@) && page_matches(p, html@),
            Err(_) => !page_wf(html@),
        },
{
    let s = chars_of(html);
    let n = s.len();

    let subject_title = match anchor_after_link(&s) {
        Some(t) => decode_entities(string_from(&t).as_str()),
        None => {
            return Err(new_err("Failed to locate the subject title"));
        },
    };
    let subgroup_name = match anchor_text_from(&s, &chars_of("magnet-link-wrap")) {
        Some(t) => decode_entities(string_from(&t).as_str()),
        None => {
            proof {
                reveal_strlit("magnet-link-wrap");
            }
            return Err(new_err("Failed to locate the release group"));
        },
    };
    let magnet_link = match magnet_text(&s) {
        Some(t) => decode_entities(string_from(&t).as_str()),
        None => {
            return Err(new_err("Failed to locate the magnet locator"));
        },
    };
    let episode_title = match episode_title_text(&s) {
        Some(t) => t,
        None => {
            return Err(new_err("Failed to locate the episode title"));
        },
    };
    let mikan_subject_id = match number_after_in(&s, &chars_of("?bangumiId="), '&') {
        Some(v) => v,
        None => {
            proof {
                reveal_strlit("?bangumiId=");
            }
            return Err(new_err("Failed to read the subject id"));
        },
    };
    let mikan_subgroup_id = match number_after_in(&s, &chars_of("&subgroupid="), '"') {
        Some(v) => v,
        None => {
            proof {
                reveal_strlit("&subgroupid=");
            }
            return Err(new_err("Failed to read the subgroup id"));
        },
    };
    let poster_url = poster_exec(&s);
    proof {
        reveal_strlit("magnet-link-wrap");
        reveal_strlit("?bangumiId=");
        reveal_strlit("&subgroupid=");
    }
    Ok(
        EpisodePage {
            subject_title,
            subgroup_name,
            magnet_link,
            episode_title,
            mikan_subject_id,
            mikan_subgroup_id,
            poster_url,
        },
    )
}

/// The raw subject title, at the link element after the title anchor.
fn anchor_after_link(s: &Vec<char>) -> (r: Option<Vec<char>>)
    ensures
        match r {
            Some(t) => raw_subject_title(s@) matches Some(raw) && t@ == raw,
            None => raw_subject_title(s@) is None,
        },
{
    proof {
        reveal_strlit("bangumi-title");
        reveal_strlit("<a");
    }
    let t = match crate::feed::find_from(s, &chars_of("bangumi-title"), 0) {
        Some(t) => t,
        None => {
            return None;
        },
    };
    let l = match crate::feed::find_from(s, &chars_of("<a"), t) {
        Some(l) => l,
        None => {
            return None;
        },
    };
    anchored_text_exec(s, l)
}

/// The element text after the given anchor, when the anchor and the element
/// are present.
fn anchor_text_from(s: &Vec<char>, anchor: &Vec<char>) -> (r: Option<Vec<char>>)
    ensures
        match r {
            Some(t) => {
                &&& find_at(s@, anchor@, 0) >= 0
                &&& anchored_text(s@, find_at(s@, anchor@, 0)) matches Some(p) && t@ == p.0
            },
            None => find_at(s@, anchor@, 0) < 0 || anchored_text(
                s@,
                find_at(s@, anchor@, 0),
            ) is None,
        },
{
    let g = match crate::feed::find_from(s, anchor, 0) {
        Some(g) => g,
        None => {
            return None;
        },
    };
    anchored_text_exec(s, g)
}

/// The text between the first `>` at or after `from` and the next `<`.
fn anchored_text_exec(s: &Vec<char>, from: usize) -> (r: Option<Vec<char>>)
    ensures
        match r {
            Some(t) => anchored_text(s@, from as int) matches Some(p) && t@ == p.0,
            None => anchored_text(s@, from as int) is None,
        },
{
    proof {
        reveal_strlit(">");
        reveal_strlit("<");
    }
    let st = match crate::feed::find_from(s, &chars_of(">"), from) {
        Some(st) => st,
        None => {
            return None;
        },
    };
    let en = match crate::feed::find_from(s, &chars_of("<"), st) {
        Some(en) => en,
        None => {
            return None;
        },
    };
    proof {
        assert(s@[st as int] == s@.subrange(st as int, st + 1)[0]);
        assert(s@[st as int] == '>');
        assert(s@[en as int] == s@.subrange(en as int, en + 1)[0]);
        assert(s@[en as int] == '<');
        assert(en > st);
    }
    Some(copy_range(s, st + 1, en))
}

/// The raw magnet locator text.
fn magnet_text(s: &Vec<char>) -> (r: Option<Vec<char>>)
    ensures
        match r {
            Some(t) => raw_magnet(s@) matches Some(raw) && t@ == raw,
            None => raw_magnet(s@) is None,
        },
{
    proof {
        reveal_strlit("href=\"magnet:");
        reveal_strlit("\">");
    }
    let m = match crate::feed::find_from(s, &chars_of("href=\"magnet:"), 0) {
        Some(m) => m,
        None => {
            return None;
        },
    };
    let st = match crate::feed::find_from(s, &chars_of("\">"), m) {
        Some(st) => st,
        None => {
            return None;
        },
    };
    proof {
        assert(m + 13 <= s@.len());
        assert(m + 6 <= st) by {
            assert(sub_at(s@, "href=\"magnet:"@, m as int));
            assert(sub_at(s@, "\">"@, st as int));
            assert(s@[st as int] == s@.subrange(st as int, st + 2)[0]);
            assert(s@[st as int] == '"');
            assert(s@[st as int + 1] == s@.subrange(st as int, st + 2)[1]);
            assert(s@[st as int + 1] == '>');
            if st < m + 6 {
                assert(s@[st as int] == s@.subrange(m as int, m + 13)[st - m]);
                assert(st - m == 5);
                assert(s@[st as int + 1] == s@.subrange(m as int, m + 13)[st - m + 1]);
                assert(false);
            }
        }
    }
    Some(copy_range(s, m + 6, st))
}

/// The decoded, suffix-stripped episode title.
fn episode_title_text(s: &Vec<char>) -> (r: Option<String>)
    ensures
        match r {
            Some(t) => {
                &&& raw_episode_title(s@) matches Some(raw)
                &&& strip_suffix(html_decoded(raw)) matches Some(stripped) && t@ == stripped
            },
            None => raw_episode_title(s@) is None || (raw_episode_title(s@) matches Some(raw)
                && strip_suffix(html_decoded(raw)) is None),
        },
{
    proof {
        reveal_strlit("episode-title\">");
        reveal_strlit("<");
    }
    let e = match crate::feed::find_from(s, &chars_of("episode-title\">"), 0) {
        Some(e) => e,
        None => {
            return None;
        },
    };
    let en = match crate::feed::find_from(s, &chars_of("<"), e) {
        Some(en) => en,
        None => {
            return None;
        },
    };
    proof {
        assert(e + 15 <= s@.len());
        assert(e + 15 <= en) by {
            assert(sub_at(s@, "episode-title\">"@, e as int));
            assert(sub_at(s@, "<"@, en as int));
            assert(s@[en as int] == s@.subrange(en as int, en + 1)[0]);
            assert(s@[en as int] == '<');
            if en < e + 15 {
                assert(s@[en as int] == s@.subrange(e as int, e + 15)[en - e]);
                assert(false);
            }
        }
    }
    let raw = copy_range(s, e + 15, en);
    let decoded_s = decode_entities(string_from(&raw).as_str());
    let decoded = chars_of(decoded_s.as_str());
    let n2 = decoded.len();
    let ghost dv = decoded@;
    if n2 < 2 {
        proof {
            reveal_strlit(" [");
            assert(last_sub(dv, " ["@, dv.len() - 2) == -1) by {
                if dv.len() == 1 {
                    assert(!sub_at(dv, " ["@, -1));
                }
            }
        }
        return None;
    }
    let mut i: usize = n2 - 2;
    proof {
        reveal_strlit(" [");
    }
    loop
        invariant
            i + 2 <= n2,
            n2 == dv.len(),
            decoded@ == dv,
            dv.len() >= 2,
            raw_episode_title(s@) is Some,
            html_decoded(raw_episode_title(s@)->Some_0) == dv,
            last_sub(dv, " ["@, dv.len() - 2) == last_sub(dv, " ["@, i as int),
        decreases i,
    {
        proof {
            reveal_strlit(" [");
        }
        if decoded[i] == ' ' && decoded[i + 1] == '[' {
            proof {
                assert(dv.subrange(i as int, i + 2) =~= " ["@);
                assert(sub_at(dv, " ["@, i as int));
            }
            let out = copy_range(&decoded, 0, i);
            proof {
                assert(dv.take(i as int) =~= dv.subrange(0, i as int));
            }
            return Some(string_from(&out));
        }
        proof {
            assert(!sub_at(dv, " ["@, i as int)) by {
                if sub_at(dv, " ["@, i as int) {
                    assert(dv[i as int] == " ["@[0]);
                    assert(dv[i as int + 1] == " ["@[1]);
                }
            }
        }
        if i == 0 {
            proof {
                assert(last_sub(dv, " ["@, 0) == last_sub(dv, " ["@, -1));
                assert(last_sub(dv, " ["@, -1) == -1);
            }
            return None;
        }
        i = i - 1;
    }
}

/// The number written after an anchor, ended by the delimiter.
pub fn number_after_in(s: &Vec<char>, anchor: &Vec<char>, delim: char) -> (r: Option<i32>)
    ensures
        match r {
            Some(v) => number_after(s@, anchor@, delim) == Some(v as int) && v >= 0,
            None => number_after(s@, anchor@, delim) is None,
        },
{
    let n = s.len();
    let p = match crate::feed::find_from(s, anchor, 0) {
        Some(p) => p,
        None => {
            return None;
        },
    };
    proof {
        assert(p + anchor@.len() <= s@.len());
    }
    let d = p + anchor.len();
    let e = scan_run(s, d);
    let l = e - d;
    if l < 1 || l > 9 {
        return None;
    }
    if e >= s.len() || s[e] != delim {
        return None;
    }
    proof {
        lemma_run_len(s@, d as int);
        lemma_digits_val_bound(s@.subrange(d as int, e as int));
        lemma_pow10_mono((e - d) as nat, 9);
        reveal_with_fuel(pow10, 10);
        assert(pow10(9) == 1000000000int);
    }
    let v = parse_digits(s, d, e);
    Some(v as i32)
}

/// The cover image's address, or an empty string.
fn poster_exec(s: &Vec<char>) -> (r: String)
    ensures
        r@ == poster_path(s@),
{
    proof {
        reveal_strlit("bangumi-poster");
        reveal_strlit("url('");
        reveal_strlit("'");
    }
    let n = s.len();
    let o = match crate::feed::find_from(s, &chars_of("bangumi-poster"), 0) {
        Some(o) => o,
        None => {
            return String::new();
        },
    };
    let u = match crate::feed::find_from(s, &chars_of("url('"), o) {
        Some(u) => u,
        None => {
            return String::new();
        },
    };
    proof {
        assert(u + 5 <= s@.len());
    }
    let en = match crate::feed::find_from(s, &chars_of("'"), u + 5) {
        Some(en) => en,
        None => {
            return String::new();
        },
    };
    let mut out = chars_of("https://mikanime.tv");
    let mut path = copy_range(s, u + 5, en);
    out.append(&mut path);
    string_from(&out)
}

} // verus!
