//! Title parsing: extracting the episode number, language tags and codec tags
//! from a raw release title.
//!
//! The episode number is taken from an ordered list of rules; the first rule
//! that produces a numeric capture wins.  Each rule picks the right-most
//! position at which its pattern applies.  A capture is numeric only when it
//! is a plain run of decimal digits (at most nine digits long, so that the
//! value always fits the result type); anything else falls through to the
//! next rule.

use vstd::prelude::*;
use crate::strutil::{
    chars_of, check_sub_at, contains_chars, contains_sub, digits_val, is_digit, is_digit_exec,
    lemma_digits_val_bound, lemma_pow10_mono, lemma_run_len, parse_digits, pow10, run_len,
    scan_run, string_from, sub_at,
};

verus! {

/// The title carries a simplified-Chinese marker.
pub open spec fn has_hans_marker(s: Seq<char>) -> bool {
    ||| contains_sub(s, "CHS"@)
    ||| contains_sub(s, "GB"@)
    ||| contains_sub(s, "chs"@)
    ||| contains_sub(s, "gb"@)
    ||| contains_sub(s, "简"@)
}

/// The title carries a traditional-Chinese marker.
pub open spec fn has_hant_marker(s: Seq<char>) -> bool {
    ||| contains_sub(s, "CHT"@)
    ||| contains_sub(s, "BIG5"@)
    ||| contains_sub(s, "cht"@)
    ||| contains_sub(s, "big5"@)
    ||| contains_sub(s, "繁"@)
}

/// The title carries a Japanese or dual-audio marker.
pub open spec fn has_jpn_marker(s: Seq<char>) -> bool {
    ||| contains_sub(s, "JP"@)
    ||| contains_sub(s, "中日"@)
    ||| contains_sub(s, "汉日"@)
    ||| contains_sub(s, "简日"@)
    ||| contains_sub(s, "繁日"@)
    ||| contains_sub(s, "双语"@)
}

/// The comma-joined language tags of a title: any subset of the three
/// language families may co-occur, in the fixed order hans, hant, jpn.
pub open spec fn language_tags(s: Seq<char>) -> Seq<char> {
    (if has_hans_marker(s) {
        "hans,"@
    } else {
        Seq::<char>::empty()
    }) + (if has_hant_marker(s) {
        "hant,"@
    } else {
        Seq::<char>::empty()
    }) + (if has_jpn_marker(s) {
        "jpn,"@
    } else {
        Seq::<char>::empty()
    })
}

/// The language tags of a release title, as a comma-joined string.
pub fn parse_filename_to_language(title: &str) -> (r: String)
    ensures
        r@ == language_tags(title@),
{
    let s = chars_of(title);
    let mut out: Vec<char> = Vec::new();
    if contains_chars(&s, &chars_of("CHS")) || contains_chars(&s, &chars_of("GB"))
        || contains_chars(&s, &chars_of("chs")) || contains_chars(&s, &chars_of("gb"))
        || contains_chars(&s, &chars_of("简")) {
        let mut t = chars_of("hans,");
        out.append(&mut t);
    }
    if contains_chars(&s, &chars_of("CHT")) || contains_chars(&s, &chars_of("BIG5"))
        || contains_chars(&s, &chars_of("cht")) || contains_chars(&s, &chars_of("big5"))
        || contains_chars(&s, &chars_of("繁")) {
        let mut t = chars_of("hant,");
        out.append(&mut t);
    }
    if contains_chars(&s, &chars_of("JP")) || contains_chars(&s, &chars_of("中日"))
        || contains_chars(&s, &chars_of("汉日")) || contains_chars(&s, &chars_of("简日"))
        || contains_chars(&s, &chars_of("繁日")) || contains_chars(&s, &chars_of("双语")) {
        let mut t = chars_of("jpn,");
        out.append(&mut t);
    }
    proof {
        assert(out@ =~= language_tags(title@));
    }
    string_from(&out)
}

/// The title carries an AVC / H.264 / MP4 marker.
pub open spec fn has_avc_marker(s: Seq<char>) -> bool {
    ||| contains_sub(s, "AVC"@)
    ||| contains_sub(s, "avc"@)
    ||| contains_sub(s, "264"@)
    ||| contains_sub(s, "MP4"@)
    ||| contains_sub(s, "mp4"@)
}

/// The title carries an HEVC / H.265 / MKV marker.
pub open spec fn has_hevc_marker(s: Seq<char>) -> bool {
    ||| contains_sub(s, "HEVC"@)
    ||| contains_sub(s, "hevc"@)
    ||| contains_sub(s, "265"@)
    ||| contains_sub(s, "MKV"@)
    ||| contains_sub(s, "mkv"@)
}

/// The title carries a VP9 marker.
pub open spec fn has_vp9_marker(s: Seq<char>) -> bool {
    contains_sub(s, "VP9"@) || contains_sub(s, "vp9"@)
}

/// The title carries an AV1 marker.
pub open spec fn has_av1_marker(s: Seq<char>) -> bool {
    contains_sub(s, "AV1"@) || contains_sub(s, "av1"@)
}

/// The comma-joined codec tags of a title, in the fixed order avc, hevc,
/// vp9, av1.
pub open spec fn codec_tags(s: Seq<char>) -> Seq<char> {
    (if has_avc_marker(s) {
        "avc,"@
    } else {
        Seq::<char>::empty()
    }) + (if has_hevc_marker(s) {
        "hevc,"@
    } else {
        Seq::<char>::empty()
    }) + (if has_vp9_marker(s) {
        "vp9,"@
    } else {
        Seq::<char>::empty()
    }) + (if has_av1_marker(s) {
        "av1,"@
    } else {
        Seq::<char>::empty()
    })
}

/// The codec tags of a release title, as a comma-joined string.
pub fn parse_filename_to_codec(title: &str) -> (r: String)
    ensures
        r@ == codec_tags(title@),
{
    let s = chars_of(title);
    let mut out: Vec<char> = Vec::new();
    if contains_chars(&s, &chars_of("AVC")) || contains_chars(&s, &chars_of("avc"))
        || contains_chars(&s, &chars_of("264")) || contains_chars(&s, &chars_of("MP4"))
        || contains_chars(&s, &chars_of("mp4")) {
        let mut t = chars_of("avc,");
        out.append(&mut t);
    }
    if contains_chars(&s, &chars_of("HEVC")) || contains_chars(&s, &chars_of("hevc"))
        || contains_chars(&s, &chars_of("265")) || contains_chars(&s, &chars_of("MKV"))
        || contains_chars(&s, &chars_of("mkv")) {
        let mut t = chars_of("hevc,");
        out.append(&mut t);
    }
    if contains_chars(&s, &chars_of("VP9")) || contains_chars(&s, &chars_of("vp9")) {
        let mut t = chars_of("vp9,");
        out.append(&mut t);
    }
    if contains_chars(&s, &chars_of("AV1")) || contains_chars(&s, &chars_of("av1")) {
        let mut t = chars_of("av1,");
        out.append(&mut t);
    }
    proof {
        assert(out@ =~= codec_tags(title@));
    }
    string_from(&out)
}

/// A title announcing a bundle of several seasons: a digit, a dash, a digit.
pub open spec fn has_season_bundle(s: Seq<char>) -> bool {
    exists|i: int|
        0 <= i && i + 2 < s.len() && is_digit(s[i]) && #[trigger] s[i + 1] == '-' && is_digit(
            s[i + 2],
        )
}

/// Whether a title announces a bundle of several seasons.
pub fn is_season_bundle(title: &str) -> (r: bool)
    ensures
        r == has_season_bundle(title@),
{
    let s = chars_of(title);
    let n = s.len();
    if n < 3 {
        return false;
    }
    let mut i: usize = 0;
    while i < n - 2
        invariant
            i <= n - 2,
            3 <= n == s@.len() == title@.len(),
            s@ == title@,
            forall|k: int|
                0 <= k < i ==> !(is_digit(title@[k]) && #[trigger] title@[k + 1] == '-' && is_digit(
                    title@[k + 2],
                )),
        decreases n - i,
    {
        if is_digit_exec(s[i]) && s[i + 1] == '-' && is_digit_exec(s[i + 2]) {
            return true;
        }
        i = i + 1;
    }
    false
}

// ---------------------------------------------------------------------------
// Episode-number rules.
// ---------------------------------------------------------------------------

/// Rule one applies at `i`: `" - "` followed by one to four digits whose run
/// ends there and is not followed by `p` (so resolutions such as `1080p` and
/// longer numbers are not taken).
pub open spec fn rule1_at(s: Seq<char>, i: int) -> bool {
    let j = i + 3;
    let l = run_len(s, j);
    &&& sub_at(s, " - "@, i)
    &&& 1 <= l <= 4
    &&& (j + l == s.len() || s[j + l] != 'p')
}

/// The value rule one captures at `i`.
pub open spec fn rule1_val(s: Seq<char>, i: int) -> int {
    digits_val(s.subrange(i + 3, i + 3 + run_len(s, i + 3)))
}

/// An opening delimiter of rule two.
pub open spec fn delim_open(c: char) -> bool {
    c == '[' || c == ' ' || c == 'E'
}

/// A closing delimiter of rule two.
pub open spec fn delim_close(c: char) -> bool {
    c == ']' || c == ' '
}

/// A closing delimiter, optionally preceded by the marker `END`, at `m`.
pub open spec fn end_close(s: Seq<char>, m: int) -> bool {
    ||| (0 <= m < s.len() && delim_close(s[m]))
    ||| (sub_at(s, "END"@, m) && m + 3 < s.len() && delim_close(s[m + 3]))
}

/// The position after an optional version marker `v` with one or two digits
/// starting at `k`, or a negative number when a `v` stands there without a
/// well-formed digit run.
pub open spec fn after_v(s: Seq<char>, k: int) -> int {
    if 0 <= k < s.len() && s[k] == 'v' {
        let l = run_len(s, k + 1);
        if 1 <= l <= 2 {
            k + 1 + l
        } else {
            -1
        }
    } else {
        k
    }
}

/// What may follow the digits of rule two: an optional version marker, an
/// optional space, an optional `END`, then a closing delimiter.
pub open spec fn rule2_tail(s: Seq<char>, k: int) -> bool {
    let k2 = after_v(s, k);
    &&& k2 >= 0
    &&& {
        ||| end_close(s, k2)
        ||| (k2 < s.len() && s[k2] == ' ' && end_close(s, k2 + 1))
    }
}

/// Rule two applies at `i`: an opening delimiter, one to four digits, then a
/// version / `END` tail and a closing delimiter.
pub open spec fn rule2_at(s: Seq<char>, i: int) -> bool {
    let j = i + 1;
    let l = run_len(s, j);
    &&& 0 <= i < s.len()
    &&& delim_open(s[i])
    &&& 1 <= l <= 4
    &&& rule2_tail(s, j + l)
}

/// The value rule two captures at `i`.
pub open spec fn rule2_val(s: Seq<char>, i: int) -> int {
    digits_val(s.subrange(i + 1, i + 1 + run_len(s, i + 1)))
}

/// An episode-count marker character.
pub open spec fn ep_marker(c: char) -> bool {
    c == '话' || c == '話' || c == '集'
}

/// Rule three applies at `i`: a bracketed episode marker `[`, an optional
/// `第`, a digit run, a marker character, an optional `END`, then `]`.
pub open spec fn rule3_at(s: Seq<char>, i: int) -> bool {
    &&& 0 <= i
    &&& i + 1 < s.len()
    &&& s[i] == '['
    &&& {
        let j = if s[i + 1] == '第' {
            i + 2
        } else {
            i + 1
        };
        let l = run_len(s, j);
        &&& 1 <= l <= 9
        &&& j + l < s.len()
        &&& ep_marker(s[j + l])
        &&& {
            ||| (j + l + 1 < s.len() && s[j + l + 1] == ']')
            ||| sub_at(s, "END]"@, j + l + 1)
        }
    }
}

/// The position where the digit run of rule three starts at `i`.
pub open spec fn rule3_digits(s: Seq<char>, i: int) -> int {
    if s[i + 1] == '第' {
        i + 2
    } else {
        i + 1
    }
}

/// The value rule three captures at `i`.
pub open spec fn rule3_val(s: Seq<char>, i: int) -> int {
    let j = rule3_digits(s, i);
    digits_val(s.subrange(j, j + run_len(s, j)))
}

/// The start of the maximal digit run that ends just before `k`.
pub open spec fn run_start(s: Seq<char>, k: int) -> int
    decreases k,
{
    if 0 < k <= s.len() && is_digit(s[k - 1]) {
        run_start(s, k - 1)
    } else {
        k
    }
}

/// Bounds and content of the maximal digit run ending just before `k`.
pub proof fn lemma_run_start(s: Seq<char>, k: int)
    requires
        0 <= k <= s.len(),
    ensures
        0 <= run_start(s, k) <= k,
        forall|m: int| run_start(s, k) <= m < k ==> is_digit(#[trigger] s[m]),
        run_start(s, k) > 0 ==> !is_digit(s[run_start(s, k) - 1]),
    decreases k,
{
    if 0 < k && is_digit(s[k - 1]) {
        lemma_run_start(s, k - 1);
    }
}

/// Rule four applies at `k`: an unbracketed episode marker immediately
/// preceded by a digit run (not itself preceded by a decimal point).
pub open spec fn rule4_at(s: Seq<char>, k: int) -> bool {
    &&& 0 < k < s.len()
    &&& ep_marker(s[k])
    &&& is_digit(s[k - 1])
    &&& {
        let j = run_start(s, k);
        &&& k - j <= 9
        &&& (j == 0 || s[j - 1] != '.')
    }
}

/// The value rule four captures at `k`.
pub open spec fn rule4_val(s: Seq<char>, k: int) -> int {
    digits_val(s.subrange(run_start(s, k), k))
}

/// Rule five applies at `i`: `E`, an optional `P`, then a digit run of at
/// most nine digits.
pub open spec fn rule5_at(s: Seq<char>, i: int) -> bool {
    &&& 0 <= i < s.len()
    &&& s[i] == 'E'
    &&& {
        let j = rule5_digits(s, i);
        1 <= run_len(s, j) <= 9
    }
}

/// The position where the digit run of rule five starts at `i`.
pub open spec fn rule5_digits(s: Seq<char>, i: int) -> int {
    if i + 1 < s.len() && s[i + 1] == 'P' {
        i + 2
    } else {
        i + 1
    }
}

/// The value rule five captures at `i`.
pub open spec fn rule5_val(s: Seq<char>, i: int) -> int {
    let j = rule5_digits(s, i);
    digits_val(s.subrange(j, j + run_len(s, j)))
}

/// The greatest position at or below `i` where the given rule applies, or a
/// negative number when none does.  The rule is selected by `rule`, one of
/// one to five.
pub open spec fn rule_best(s: Seq<char>, rule: int, i: int) -> int
    decreases i + 1,
{
    if i < 0 {
        -1
    } else if rule_at(s, rule, i) {
        i
    } else {
        rule_best(s, rule, i - 1)
    }
}

/// Whether the given rule applies at `i`.
pub open spec fn rule_at(s: Seq<char>, rule: int, i: int) -> bool {
    if rule == 1 {
        rule1_at(s, i)
    } else if rule == 2 {
        rule2_at(s, i)
    } else if rule == 3 {
        rule3_at(s, i)
    } else if rule == 4 {
        rule4_at(s, i)
    } else {
        rule5_at(s, i)
    }
}

/// The value the given rule captures at `i`.
pub open spec fn rule_val(s: Seq<char>, rule: int, i: int) -> int {
    if rule == 1 {
        rule1_val(s, i)
    } else if rule == 2 {
        rule2_val(s, i)
    } else if rule == 3 {
        rule3_val(s, i)
    } else if rule == 4 {
        rule4_val(s, i)
    } else {
        rule5_val(s, i)
    }
}

/// A rule's match positions are confined to the sequence.
pub proof fn lemma_rule_best_bounds(s: Seq<char>, rule: int, i: int)
    requires
        i >= -1,
    ensures
        rule_best(s, rule, i) <= i,
        rule_best(s, rule, i) >= 0 ==> rule_at(s, rule, rule_best(s, rule, i)),
    decreases i + 1,
{
    if i >= 0 && !rule_at(s, rule, i) {
        lemma_rule_best_bounds(s, rule, i - 1);
    }
}

/// The episode number parsed from a title: the first rule in the order one
/// to five that applies anywhere wins, at its right-most position.
pub open spec fn parsed_episode(s: Seq<char>) -> Option<int> {
    let last = s.len() - 1;
    if rule_best(s, 1, last) >= 0 {
        Some(rule_val(s, 1, rule_best(s, 1, last)))
    } else if rule_best(s, 2, last) >= 0 {
        Some(rule_val(s, 2, rule_best(s, 2, last)))
    } else if rule_best(s, 3, last) >= 0 {
        Some(rule_val(s, 3, rule_best(s, 3, last)))
    } else if rule_best(s, 4, last) >= 0 {
        Some(rule_val(s, 4, rule_best(s, 4, last)))
    } else if rule_best(s, 5, last) >= 0 {
        Some(rule_val(s, 5, rule_best(s, 5, last)))
    } else {
        None
    }
}

/// Whether rule one applies at `i`.
fn check_rule1_at(s: &Vec<char>, dash: &Vec<char>, i: usize) -> (r: bool)
    requires
        dash@ == " - "@,
        i <= s@.len(),
    ensures
        r == rule1_at(s@, i as int),
{
    proof {
        reveal_strlit(" - ");
    }
    let n = s.len();
    if n - i < 3 {
        return false;
    }
    if !check_sub_at(s, dash, i) {
        return false;
    }
    let j = i + 3;
    let e = scan_run(s, j);
    let l = e - j;
    if l < 1 || l > 4 {
        return false;
    }
    if e < n && s[e] == 'p' {
        return false;
    }
    true
}

/// Whether rule two applies at `i`.
fn check_rule2_at(s: &Vec<char>, endv: &Vec<char>, i: usize) -> (r: bool)
    requires
        endv@ == "END"@,
        i < s@.len(),
    ensures
        r == rule2_at(s@, i as int),
{
    let n = s.len();
    let c = s[i];
    if !(c == '[' || c == ' ' || c == 'E') {
        return false;
    }
    let j = i + 1;
    let e = scan_run(s, j);
    let l = e - j;
    if l < 1 || l > 4 {
        return false;
    }
    check_rule2_tail(s, endv, e)
}

/// Whether the tail of rule two starts at `k`.
fn check_rule2_tail(s: &Vec<char>, endv: &Vec<char>, k: usize) -> (r: bool)
    requires
        endv@ == "END"@,
        k <= s@.len(),
    ensures
        r == rule2_tail(s@, k as int),
{
    let n = s.len();
    let k2: usize = if k < n && s[k] == 'v' {
        let e = scan_run(s, k + 1);
        let l = e - (k + 1);
        if l < 1 || l > 2 {
            return false;
        }
        e
    } else {
        k
    };
    if check_end_close(s, endv, k2) {
        return true;
    }
    if k2 < n && s[k2] == ' ' && check_end_close(s, endv, k2 + 1) {
        return true;
    }
    false
}

/// Whether a closing delimiter, optionally after `END`, stands at `m`.
fn check_end_close(s: &Vec<char>, endv: &Vec<char>, m: usize) -> (r: bool)
    requires
        endv@ == "END"@,
        m <= s@.len() + 1,
    ensures
        r == end_close(s@, m as int),
{
    proof {
        reveal_strlit("END");
    }
    let n = s.len();
    if m < n && (s[m] == ']' || s[m] == ' ') {
        return true;
    }
    if m < n && n - m > 3 && check_sub_at(s, endv, m) && (s[m + 3] == ']' || s[m + 3] == ' ') {
        return true;
    }
    false
}

/// Whether rule three applies at `i`.
fn check_rule3_at(s: &Vec<char>, endb: &Vec<char>, i: usize) -> (r: bool)
    requires
        endb@ == "END]"@,
        i < s@.len(),
    ensures
        r == rule3_at(s@, i as int),
{
    proof {
        reveal_strlit("END]");
    }
    let n = s.len();
    if s[i] != '[' || i + 1 >= n {
        return false;
    }
    let j: usize = if s[i + 1] == '第' {
        i + 2
    } else {
        i + 1
    };
    if j > n {
        return false;
    }
    let e = scan_run(s, j);
    let l = e - j;
    if l < 1 || l > 9 {
        return false;
    }
    if e >= n {
        return false;
    }
    let c = s[e];
    if !(c == '话' || c == '話' || c == '集') {
        return false;
    }
    if e + 1 < n && s[e + 1] == ']' {
        return true;
    }
    if e < n && n - e >= 5 && check_sub_at(s, endb, e + 1) {
        return true;
    }
    false
}

/// Whether rule four applies at `k`.
fn check_rule4_at(s: &Vec<char>, k: usize) -> (r: bool)
    requires
        k < s@.len(),
    ensures
        r == rule4_at(s@, k as int),
{
    let c = s[k];
    if !(c == '话' || c == '話' || c == '集') {
        return false;
    }
    if k == 0 || !is_digit_exec(s[k - 1]) {
        return false;
    }
    let j = scan_run_back(s, k);
    if k - j > 9 {
        return false;
    }
    if j > 0 && s[j - 1] == '.' {
        return false;
    }
    true
}

/// The start of the maximal digit run that ends just before `k`.
fn scan_run_back(s: &Vec<char>, k: usize) -> (j: usize)
    requires
        k <= s@.len(),
    ensures
        j == run_start(s@, k as int),
        j <= k,
{
    let mut j = k;
    while j > 0 && is_digit_exec(s[j - 1])
        invariant
            j <= k <= s@.len(),
            run_start(s@, k as int) == run_start(s@, j as int),
        decreases j,
    {
        j = j - 1;
    }
    j
}

/// Whether rule five applies at `i`.
fn check_rule5_at(s: &Vec<char>, i: usize) -> (r: bool)
    requires
        i < s@.len(),
    ensures
        r == rule5_at(s@, i as int),
{
    let n = s.len();
    if s[i] != 'E' {
        return false;
    }
    let j: usize = if i + 1 < n && s[i + 1] == 'P' {
        i + 2
    } else {
        i + 1
    };
    if j > n {
        return false;
    }
    let e = scan_run(s, j);
    let l = e - j;
    1 <= l && l <= 9
}

/// Whether the given rule applies at `i`; dispatches on the rule number.
fn check_rule_at(
    s: &Vec<char>,
    dash: &Vec<char>,
    endv: &Vec<char>,
    endb: &Vec<char>,
    rule: u8,
    i: usize,
) -> (r: bool)
    requires
        dash@ == " - "@,
        endv@ == "END"@,
        endb@ == "END]"@,
        1 <= rule <= 5,
        i < s@.len(),
    ensures
        r == rule_at(s@, rule as int, i as int),
{
    if rule == 1 {
        check_rule1_at(s, dash, i)
    } else if rule == 2 {
        check_rule2_at(s, endv, i)
    } else if rule == 3 {
        check_rule3_at(s, endb, i)
    } else if rule == 4 {
        check_rule4_at(s, i)
    } else {
        check_rule5_at(s, i)
    }
}

/// The right-most position where the given rule applies, if any.
fn scan_rule(
    s: &Vec<char>,
    dash: &Vec<char>,
    endv: &Vec<char>,
    endb: &Vec<char>,
    rule: u8,
) -> (r: Option<usize>)
    requires
        dash@ == " - "@,
        endv@ == "END"@,
        endb@ == "END]"@,
        1 <= rule <= 5,
    ensures
        match r {
            Some(i) => i < s@.len() && i as int == rule_best(s@, rule as int, s@.len() - 1),
            None => rule_best(s@, rule as int, s@.len() - 1) < 0,
        },
{
    let n = s.len();
    if n == 0 {
        return None;
    }
    let mut i: usize = n - 1;
    loop
        invariant
            i < n == s@.len(),
            dash@ == " - "@,
            endv@ == "END"@,
            endb@ == "END]"@,
            1 <= rule <= 5,
            rule_best(s@, rule as int, s@.len() - 1) == rule_best(s@, rule as int, i as int),
        decreases i,
    {
        if check_rule_at(s, dash, endv, endb, rule, i) {
            return Some(i);
        }
        proof {
            assert(rule_best(s@, rule as int, i as int) == rule_best(s@, rule as int, i - 1));
        }
        if i == 0 {
            proof {
                assert(rule_best(s@, rule as int, -1) == -1);
            }
            return None;
        }
        i = i - 1;
    }
}

/// The value the given rule captures at the position where it applies.
fn rule_value_at(s: &Vec<char>, rule: u8, i: usize) -> (v: i32)
    requires
        1 <= rule <= 5,
        i < s@.len(),
        rule_at(s@, rule as int, i as int),
    ensures
        v as int == rule_val(s@, rule as int, i as int),
        v >= 0,
{
    let n = s.len();
    let (start, end): (usize, usize) = if rule == 1 {
        proof {
            reveal_strlit(" - ");
            assert(i + 3 <= s@.len());
        }
        let j = i + 3;
        (j, scan_run(s, j))
    } else if rule == 2 {
        let j = i + 1;
        (j, scan_run(s, j))
    } else if rule == 3 {
        proof {
            assert(i + 1 < s@.len());
        }
        let j: usize = if s[i + 1] == '第' {
            i + 2
        } else {
            i + 1
        };
        (j, scan_run(s, j))
    } else if rule == 4 {
        (scan_run_back(s, i), i)
    } else {
        let j: usize = if i + 1 < n && s[i + 1] == 'P' {
            i + 2
        } else {
            i + 1
        };
        (j, scan_run(s, j))
    };
    proof {
        lemma_run_len(s@, start as int);
        if rule == 4 {
            lemma_run_start(s@, i as int);
        }
        lemma_digits_val_bound(s@.subrange(start as int, end as int));
        lemma_pow10_mono((end - start) as nat, 9);
        reveal_with_fuel(pow10, 10);
        assert(pow10(9) == 1000000000int);
    }
    let v = parse_digits(s, start, end);
    v as i32
}

/// The episode number parsed from a release title, by the ordered rule list;
/// no rule matching yields nothing.
pub fn parse_filename_to_episode(filename: &str) -> (r: Option<i32>)
    ensures
        match r {
            Some(v) => parsed_episode(filename@) == Some(v as int) && v >= 0,
            None => parsed_episode(filename@) is None,
        },
{
    let s = chars_of(filename);
    let dash = chars_of(" - ");
    let endv = chars_of("END");
    let endb = chars_of("END]");
    let mut rule: u8 = 1;
    while rule <= 5
        invariant
            1 <= rule <= 6,
            s@ == filename@,
            dash@ == " - "@,
            endv@ == "END"@,
            endb@ == "END]"@,
            forall|q: int| 1 <= q < rule ==> #[trigger] rule_best(s@, q, s@.len() - 1) < 0,
        decreases 6 - rule,
    {
        if let Some(i) = scan_rule(&s, &dash, &endv, &endb, rule) {
            proof {
                lemma_rule_best_bounds(s@, rule as int, s@.len() - 1);
            }
            let v = rule_value_at(&s, rule, i);
            return Some(v);
        }
        rule = rule + 1;
    }
    None
}

/// Any title carrying a simplified-Chinese marker parses to a language-tag
/// set containing the simplified-Chinese tag; one carrying both the
/// simplified and the traditional markers yields both tags.
pub proof fn lemma_language_tags_hans(s: Seq<char>)
    ensures
        has_hans_marker(s) ==> contains_sub(language_tags(s), "hans"@),
        has_hans_marker(s) && has_hant_marker(s) ==> contains_sub(language_tags(s), "hans"@)
            && contains_sub(language_tags(s), "hant"@),
{
    reveal_strlit("hans,");
    reveal_strlit("hant,");
    reveal_strlit("jpn,");
    reveal_strlit("hans");
    reveal_strlit("hant");
    let t = language_tags(s);
    if has_hans_marker(s) {
        assert(t.subrange(0, 4) =~= "hans"@);
        assert(sub_at(t, "hans"@, 0));
        if has_hant_marker(s) {
            assert(t.subrange(5, 9) =~= "hant"@);
            assert(sub_at(t, "hant"@, 5));
        }
    }
}

} // verus!
