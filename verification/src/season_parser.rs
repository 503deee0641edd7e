//! Deriving a season number from a subject's aliases.
//!
//! Aliases are folded to ASCII lower case, then an ordered list of numeral
//! patterns is tried: `season N`, `seasonN`, a zero-padded `sNN`, `第N季`,
//! `第N期`; for each pattern every alias is scanned in order and the
//! left-most occurrence wins.  A fixed table of spelled-out CJK numerals
//! (`第一季` through `第二十季`) is the fallback.  Digit runs longer than
//! nine digits are not taken as season numbers.

use vstd::prelude::*;
use crate::strutil::{
    chars_of, check_sub_at, contains_chars, contains_sub, digits_val, lemma_digits_val_bound,
    lemma_pow10_mono, lemma_run_len, lower_seq, parse_digits, pow10, run_len, scan_run, sub_at,
    to_lower,
};

verus! {

/// Whether season pattern `pat` (one to five) applies at position `k` of a
/// lower-cased alias.
pub open spec fn sea_at(a: Seq<char>, pat: int, k: int) -> bool {
    if pat == 1 {
        sub_at(a, "season "@, k) && 1 <= run_len(a, k + 7) <= 9
    } else if pat == 2 {
        sub_at(a, "season"@, k) && 1 <= run_len(a, k + 6) <= 9
    } else if pat == 3 {
        0 <= k < a.len() && a[k] == 's' && run_len(a, k + 1) == 2
    } else if pat == 4 {
        let l = run_len(a, k + 1);
        0 <= k < a.len() && a[k] == '第' && 1 <= l <= 9 && k + 1 + l < a.len() && a[k + 1 + l]
            == '季'
    } else {
        let l = run_len(a, k + 1);
        0 <= k < a.len() && a[k] == '第' && 1 <= l <= 9 && k + 1 + l < a.len() && a[k + 1 + l]
            == '期'
    }
}

/// The position where the digit run of pattern `pat` starts at `k`.
pub open spec fn sea_digits(pat: int, k: int) -> int {
    if pat == 1 {
        k + 7
    } else if pat == 2 {
        k + 6
    } else {
        k + 1
    }
}

/// The value pattern `pat` captures at `k`.
pub open spec fn sea_val(a: Seq<char>, pat: int, k: int) -> int {
    let j = sea_digits(pat, k);
    digits_val(a.subrange(j, j + run_len(a, j)))
}

/// The left-most position at or after `i` where pattern `pat` applies, or a
/// negative number when none does.
pub open spec fn sea_first(a: Seq<char>, pat: int, i: int) -> int
    decreases a.len() - i,
{
    if i < 0 || i >= a.len() {
        -1
    } else if sea_at(a, pat, i) {
        i
    } else {
        sea_first(a, pat, i + 1)
    }
}

/// A found position is in bounds and carries its pattern.
pub proof fn lemma_sea_first(a: Seq<char>, pat: int, i: int)
    ensures
        sea_first(a, pat, i) >= 0 ==> i <= sea_first(a, pat, i) < a.len() && sea_at(
            a,
            pat,
            sea_first(a, pat, i),
        ),
    decreases a.len() - i,
{
    if 0 <= i < a.len() && !sea_at(a, pat, i) {
        lemma_sea_first(a, pat, i + 1);
    }
}

/// The value of pattern `pat` over the aliases from index `ai` on: the first
/// alias where the pattern occurs supplies its left-most occurrence.
pub open spec fn sea_rule_scan(aliases: Seq<Seq<char>>, pat: int, ai: int) -> Option<int>
    decreases aliases.len() - ai,
{
    if ai < 0 || ai >= aliases.len() {
        None
    } else {
        let a = lower_seq(aliases[ai]);
        let k = sea_first(a, pat, 0);
        if k >= 0 {
            Some(sea_val(a, pat, k))
        } else {
            sea_rule_scan(aliases, pat, ai + 1)
        }
    }
}

/// The spelled-out CJK numeral pattern for season `n`, one through twenty.
pub open spec fn cjk_numeral(n: int) -> Seq<char> {
    if n == 1 {
        "第一季"@
    } else if n == 2 {
        "第二季"@
    } else if n == 3 {
        "第三季"@
    } else if n == 4 {
        "第四季"@
    } else if n == 5 {
        "第五季"@
    } else if n == 6 {
        "第六季"@
    } else if n == 7 {
        "第七季"@
    } else if n == 8 {
        "第八季"@
    } else if n == 9 {
        "第九季"@
    } else if n == 10 {
        "第十季"@
    } else if n == 11 {
        "第十一季"@
    } else if n == 12 {
        "第十二季"@
    } else if n == 13 {
        "第十三季"@
    } else if n == 14 {
        "第十四季"@
    } else if n == 15 {
        "第十五季"@
    } else if n == 16 {
        "第十六季"@
    } else if n == 17 {
        "第十七季"@
    } else if n == 18 {
        "第十八季"@
    } else if n == 19 {
        "第十九季"@
    } else {
        "第二十季"@
    }
}

/// Some alias contains the spelled-out numeral for season `n`.
pub open spec fn cjk_hit(aliases: Seq<Seq<char>>, n: int) -> bool {
    exists|ai: int|
        0 <= ai < aliases.len() && contains_sub(
            lower_seq(#[trigger] aliases[ai]),
            cjk_numeral(n),
        )
}

/// The first spelled-out CJK numeral, from `n` up to twenty, that some alias
/// contains.
pub open spec fn cjk_scan(aliases: Seq<Seq<char>>, n: int) -> Option<int>
    decreases 21 - n,
{
    if n < 1 || n > 20 {
        None
    } else if cjk_hit(aliases, n) {
        Some(n)
    } else {
        cjk_scan(aliases, n + 1)
    }
}

/// The season number derived from a list of aliases, or nothing: the digit
/// patterns in order, then the CJK numeral table.
pub open spec fn season_of_aliases(aliases: Seq<Seq<char>>) -> Option<int> {
    if sea_rule_scan(aliases, 1, 0) is Some {
        sea_rule_scan(aliases, 1, 0)
    } else if sea_rule_scan(aliases, 2, 0) is Some {
        sea_rule_scan(aliases, 2, 0)
    } else if sea_rule_scan(aliases, 3, 0) is Some {
        sea_rule_scan(aliases, 3, 0)
    } else if sea_rule_scan(aliases, 4, 0) is Some {
        sea_rule_scan(aliases, 4, 0)
    } else if sea_rule_scan(aliases, 5, 0) is Some {
        sea_rule_scan(aliases, 5, 0)
    } else {
        cjk_scan(aliases, 1)
    }
}

/// Whether season pattern `pat` applies at `k` of the lower-cased alias `a`.
fn check_sea_at(a: &Vec<char>, pw1: &Vec<char>, pw2: &Vec<char>, pat: u8, k: usize) -> (r: bool)
    requires
        pw1@ == "season "@,
        pw2@ == "season"@,
        1 <= pat <= 5,
        k < a@.len(),
    ensures
        r == sea_at(a@, pat as int, k as int),
{
    proof {
        reveal_strlit("season ");
        reveal_strlit("season");
    }
    let n = a.len();
    if pat == 1 {
        if n - k < 7 || !check_sub_at(a, pw1, k) {
            return false;
        }
        let e = scan_run(a, k + 7);
        let l = e - (k + 7);
        1 <= l && l <= 9
    } else if pat == 2 {
        if n - k < 6 || !check_sub_at(a, pw2, k) {
            return false;
        }
        let e = scan_run(a, k + 6);
        let l = e - (k + 6);
        1 <= l && l <= 9
    } else if pat == 3 {
        if a[k] != 's' {
            return false;
        }
        let e = scan_run(a, k + 1);
        e - (k + 1) == 2
    } else {
        if a[k] != '第' {
            return false;
        }
        let e = scan_run(a, k + 1);
        let l = e - (k + 1);
        if l < 1 || l > 9 || e >= n {
            return false;
        }
        if pat == 4 {
            a[e] == '季'
        } else {
            a[e] == '期'
        }
    }
}

/// The left-most position in `a` where pattern `pat` applies, if any.
fn find_sea(a: &Vec<char>, pw1: &Vec<char>, pw2: &Vec<char>, pat: u8) -> (r: Option<usize>)
    requires
        pw1@ == "season "@,
        pw2@ == "season"@,
        1 <= pat <= 5,
    ensures
        match r {
            Some(k) => k < a@.len() && k as int == sea_first(a@, pat as int, 0),
            None => sea_first(a@, pat as int, 0) < 0,
        },
{
    let n = a.len();
    let mut i: usize = 0;
    while i < n
        invariant
            i <= n == a@.len(),
            pw1@ == "season "@,
            pw2@ == "season"@,
            1 <= pat <= 5,
            sea_first(a@, pat as int, 0) == sea_first(a@, pat as int, i as int),
        decreases n - i,
    {
        if check_sea_at(a, pw1, pw2, pat, i) {
            return Some(i);
        }
        i = i + 1;
    }
    None
}

/// The value pattern `pat` captures at `k`.
fn sea_value_at(a: &Vec<char>, pat: u8, k: usize) -> (v: i32)
    requires
        1 <= pat <= 5,
        k < a@.len(),
        sea_at(a@, pat as int, k as int),
    ensures
        v as int == sea_val(a@, pat as int, k as int),
        v >= 0,
{
    proof {
        reveal_strlit("season ");
        reveal_strlit("season");
    }
    let n = a.len();
    let j: usize = if pat == 1 {
        proof {
            assert(k + 7 <= a@.len());
        }
        k + 7
    } else if pat == 2 {
        proof {
            assert(k + 6 <= a@.len());
        }
        k + 6
    } else {
        k + 1
    };
    let e = scan_run(a, j);
    proof {
        lemma_run_len(a@, j as int);
        lemma_digits_val_bound(a@.subrange(j as int, e as int));
        lemma_pow10_mono((e - j) as nat, 9);
        reveal_with_fuel(pow10, 10);
        assert(pow10(9) == 1000000000int);
    }
    let v = parse_digits(a, j, e);
    v as i32
}

/// The spelled-out CJK numeral pattern for season `n`, as characters.
fn cjk_numeral_exec(n: u8) -> (v: Vec<char>)
    requires
        1 <= n <= 20,
    ensures
        v@ == cjk_numeral(n as int),
{
    if n == 1 {
        chars_of("第一季")
    } else if n == 2 {
        chars_of("第二季")
    } else if n == 3 {
        chars_of("第三季")
    } else if n == 4 {
        chars_of("第四季")
    } else if n == 5 {
        chars_of("第五季")
    } else if n == 6 {
        chars_of("第六季")
    } else if n == 7 {
        chars_of("第七季")
    } else if n == 8 {
        chars_of("第八季")
    } else if n == 9 {
        chars_of("第九季")
    } else if n == 10 {
        chars_of("第十季")
    } else if n == 11 {
        chars_of("第十一季")
    } else if n == 12 {
        chars_of("第十二季")
    } else if n == 13 {
        chars_of("第十三季")
    } else if n == 14 {
        chars_of("第十四季")
    } else if n == 15 {
        chars_of("第十五季")
    } else if n == 16 {
        chars_of("第十六季")
    } else if n == 17 {
        chars_of("第十七季")
    } else if n == 18 {
        chars_of("第十八季")
    } else if n == 19 {
        chars_of("第十九季")
    } else {
        chars_of("第二十季")
    }
}

/// The season number parsed from a subject's aliases, if any numeral pattern
/// or spelled-out CJK numeral occurs in one of them.
pub fn parse_season_num_from_aliases(aliases: &Vec<String>) -> (r: Option<i32>)
    ensures
        match r {
            Some(v) => season_of_aliases(aliases.deep_view()) == Some(v as int),
            None => season_of_aliases(aliases.deep_view()) is None,
        },
{
    let pw1 = chars_of("season ");
    let pw2 = chars_of("season");

    let mut lowered: Vec<Vec<char>> = Vec::new();
    let mut i: usize = 0;
    while i < aliases.len()
        invariant
            i <= aliases@.len(),
            lowered@.len() == i,
            forall|k: int|
                0 <= k < i ==> #[trigger] lowered@[k]@ == lower_seq(aliases.deep_view()[k]),
        decreases aliases.len() - i,
    {
        let a = chars_of(aliases[i].as_str());
        lowered.push(to_lower(&a));
        i = i + 1;
    }

    let ghost av = aliases.deep_view();
    let mut pat: u8 = 1;
    while pat <= 5
        invariant
            1 <= pat <= 6,
            aliases.deep_view() == av,
            lowered@.len() == av.len(),
            forall|k: int| 0 <= k < av.len() ==> #[trigger] lowered@[k]@ == lower_seq(av[k]),
            pw1@ == "season "@,
            pw2@ == "season"@,
            forall|q: int| 1 <= q < pat ==> #[trigger] sea_rule_scan(av, q, 0) is None,
        decreases 6 - pat,
    {
        let mut ai: usize = 0;
        while ai < lowered.len()
            invariant
                ai <= lowered@.len(),
                1 <= pat <= 5,
                aliases.deep_view() == av,
                lowered@.len() == av.len(),
                forall|k: int| 0 <= k < av.len() ==> #[trigger] lowered@[k]@ == lower_seq(av[k]),
                pw1@ == "season "@,
                pw2@ == "season"@,
                forall|q: int| 1 <= q < pat ==> #[trigger] sea_rule_scan(av, q, 0) is None,
                sea_rule_scan(av, pat as int, 0) == sea_rule_scan(av, pat as int, ai as int),
            decreases lowered.len() - ai,
        {
            let a = &lowered[ai];
            if let Some(k) = find_sea(a, &pw1, &pw2, pat) {
                proof {
                    lemma_sea_first(a@, pat as int, 0);
                    assert(a@ == lower_seq(av[ai as int]));
                    assert(sea_rule_scan(av, pat as int, ai as int) == Some(
                        sea_val(a@, pat as int, k as int),
                    ));
                    assert(sea_rule_scan(av, pat as int, 0) == Some(
                        sea_val(a@, pat as int, k as int),
                    ));
                    assert(season_of_aliases(av) == Some(sea_val(a@, pat as int, k as int)));
                }
                let v = sea_value_at(a, pat, k);
                return Some(v);
            }
            ai = ai + 1;
        }
        pat = pat + 1;
    }

    let mut n: u8 = 1;
    while n <= 20
        invariant
            1 <= n <= 21,
            aliases.deep_view() == av,
            lowered@.len() == av.len(),
            forall|k: int| 0 <= k < av.len() ==> #[trigger] lowered@[k]@ == lower_seq(av[k]),
            season_of_aliases(av) == cjk_scan(av, 1),
            cjk_scan(av, 1) == cjk_scan(av, n as int),
        decreases 21 - n,
    {
        let pat = cjk_numeral_exec(n);
        let mut ai: usize = 0;
        while ai < lowered.len()
            invariant
                ai <= lowered@.len(),
                1 <= n <= 20,
                aliases.deep_view() == av,
                lowered@.len() == av.len(),
                forall|k: int| 0 <= k < av.len() ==> #[trigger] lowered@[k]@ == lower_seq(av[k]),
                season_of_aliases(av) == cjk_scan(av, 1),
                cjk_scan(av, 1) == cjk_scan(av, n as int),
                pat@ == cjk_numeral(n as int),
                forall|k: int|
                    0 <= k < ai ==> !contains_sub(lower_seq(#[trigger] av[k]), cjk_numeral(n as int)),
            decreases lowered.len() - ai,
        {
            if contains_chars(&lowered[ai], &pat) {
                proof {
                    assert(contains_sub(lower_seq(av[ai as int]), cjk_numeral(n as int)));
                    assert(cjk_hit(av, n as int));
                    assert(cjk_scan(av, n as int) == Some(n as int));
                }
                return Some(n as i32);
            }
            ai = ai + 1;
        }
        proof {
            assert(!cjk_hit(av, n as int));
        }
        n = n + 1;
    }
    None
}

} // verus!
