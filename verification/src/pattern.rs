//! The pattern matcher: compiles an ordered list of per-position
//! letter/diacritic descriptors into an Arabic-script pattern and runs it
//! over stored verse texts, counting occurrences per verse.  A position
//! holds one base letter — a fixed one or any Arabic letter — followed by
//! its diacritics (an explicit set or any) and optional elongation marks;
//! prefix and suffix attachment flags decide whether a match may sit
//! inside a longer word.

use vstd::prelude::*;
use crate::text::{chars_of, concat_chars, is_space, string_of};

verus! {

/// One position of a letter/diacritic template.
pub struct PatternSegment {
    /// The fixed letter text, absent for a wildcard.
    pub letter: Option<String>,
    /// Explicitly any letter; a missing letter also means any.
    pub any_letter: bool,
    /// The exact diacritics required after the letter, in order.
    pub diacritics: Option<Vec<String>>,
    /// Any diacritics, overriding an explicit set.
    pub any_diacritics: bool,
}

/// The Arabic base-letter block plus extended alef/hamza code points.
pub open spec fn is_arabic_letter(c: char) -> bool {
    ('\u{0621}' <= c && c <= '\u{064A}') || ('\u{0671}' <= c && c <= '\u{0673}') || c == '\u{0675}'
}

/// The combining-mark block plus supplementary variants.
pub open spec fn is_diacritic(c: char) -> bool {
    ('\u{064B}' <= c && c <= '\u{0652}') || c == '\u{0670}' || ('\u{0653}' <= c && c
        <= '\u{0655}')
}

/// The elongation mark.
pub open spec fn is_tatweel(c: char) -> bool {
    c == '\u{0640}'
}

pub fn is_arabic_letter_exec(c: char) -> (r: bool)
    ensures
        r == is_arabic_letter(c),
{
    ('\u{0621}' <= c && c <= '\u{064A}') || ('\u{0671}' <= c && c <= '\u{0673}') || c == '\u{0675}'
}

pub fn is_diacritic_exec(c: char) -> (r: bool)
    ensures
        r == is_diacritic(c),
{
    ('\u{064B}' <= c && c <= '\u{0652}') || c == '\u{0670}' || ('\u{0653}' <= c && c
        <= '\u{0655}')
}

/// Whether a position matches any letter: declared so, or without a fixed
/// letter.
pub open spec fn wild_letter(g: PatternSegment) -> bool {
    g.any_letter || g.letter is None
}

/// The fixed letter text of a position.
pub open spec fn letter_lit(g: PatternSegment) -> Seq<char> {
    match g.letter {
        Some(l) => l@,
        None => Seq::empty(),
    }
}

/// The required diacritic text of a position: the concatenation of its
/// explicit set; empty when any diacritics are allowed or none are named.
pub open spec fn diac_lit(g: PatternSegment) -> Seq<char>
    decreases g,
{
    if g.any_diacritics {
        Seq::empty()
    } else {
        match g.diacritics {
            Some(ds) => concat_all(ds@.map_values(|d: String| d@)),
            None => Seq::empty(),
        }
    }
}

pub open spec fn concat_all(ss: Seq<Seq<char>>) -> Seq<char>
    decreases ss.len(),
{
    if ss.len() == 0 {
        Seq::empty()
    } else {
        concat_all(ss.drop_last()) + ss.last()
    }
}

/// Whether `lit` occurs at position `p` of the text.
pub open spec fn lit_at(text: Seq<char>, p: int, lit: Seq<char>) -> bool {
    0 <= p && p + lit.len() <= text.len() && text.subrange(p, p + lit.len()) == lit
}

/// Length of the run of diacritics starting at `p`.
pub open spec fn diac_run(text: Seq<char>, p: int) -> nat
    decreases text.len() - p,
{
    if 0 <= p < text.len() && is_diacritic(text[p]) {
        1 + diac_run(text, p + 1)
    } else {
        0
    }
}

/// Length of the run of elongation marks starting at `p`.
pub open spec fn tat_run(text: Seq<char>, p: int) -> nat
    decreases text.len() - p,
{
    if 0 <= p < text.len() && is_tatweel(text[p]) {
        1 + tat_run(text, p + 1)
    } else {
        0
    }
}

/// Where one template position, matched greedily at `p`, ends; `None`
/// when it does not match there.
pub open spec fn seg_end(text: Seq<char>, p: int, g: PatternSegment) -> Option<int> {
    let after_letter: Option<int> = if wild_letter(g) {
        if 0 <= p < text.len() && is_arabic_letter(text[p]) {
            Some(p + 1)
        } else {
            None
        }
    } else {
        if lit_at(text, p, letter_lit(g)) {
            Some(p + letter_lit(g).len())
        } else {
            None
        }
    };
    match after_letter {
        None => None,
        Some(e1) => {
            let d = diac_lit(g);
            if lit_at(text, e1, d) {
                let e2 = e1 + d.len();
                let e3 = e2 + diac_run(text, e2);
                Some(e3 + tat_run(text, e3))
            } else {
                None
            }
        },
    }
}

/// Where the whole template, matched at `p`, ends.
pub open spec fn segs_end(text: Seq<char>, p: int, segs: Seq<PatternSegment>) -> Option<int>
    decreases segs.len(),
{
    if segs.len() == 0 {
        Some(p)
    } else {
        match seg_end(text, p, segs[0]) {
            Some(e) => segs_end(text, e, segs.skip(1)),
            None => None,
        }
    }
}

/// A match at `p` honoring the attachment flags: without prefix
/// attachment nothing non-whitespace may precede it, without suffix
/// attachment nothing non-whitespace may follow it.
pub open spec fn anchored_match(
    text: Seq<char>,
    p: int,
    segs: Seq<PatternSegment>,
    allow_prefix: bool,
    allow_suffix: bool,
) -> Option<int> {
    match segs_end(text, p, segs) {
        Some(e) => if (allow_prefix || p == 0 || is_space(text[p - 1])) && (allow_suffix || e
            == text.len() || (0 <= e < text.len() && is_space(text[e]))) {
            Some(e)
        } else {
            None
        },
        None => None,
    }
}

/// The number of non-overlapping matches, scanning left to right.
pub open spec fn match_count(
    text: Seq<char>,
    segs: Seq<PatternSegment>,
    allow_prefix: bool,
    allow_suffix: bool,
    p: int,
) -> nat
    decreases text.len() - p,
    when p >= 0
{
    if p >= text.len() {
        0
    } else {
        match anchored_match(text, p, segs, allow_prefix, allow_suffix) {
            Some(e) => 1 + if p < e <= text.len() {
                match_count(text, segs, allow_prefix, allow_suffix, e)
            } else {
                match_count(text, segs, allow_prefix, allow_suffix, p + 1)
            },
            None => match_count(text, segs, allow_prefix, allow_suffix, p + 1),
        }
    }
}

/// The diacritic and elongation runs stay inside the text.
proof fn lemma_run_bounds(text: Seq<char>, p: int)
    requires
        0 <= p <= text.len(),
    ensures
        p + diac_run(text, p) <= text.len(),
        p + tat_run(text, p) <= text.len(),
    decreases text.len() - p,
{
    if p < text.len() {
        lemma_run_bounds(text, p + 1);
    }
}

proof fn lemma_runs_at(text: Seq<char>, p: int, g: PatternSegment)
    requires
        seg_end(text, p, g) matches Some(e),
    ensures
        seg_end(text, p, g).unwrap() >= p,
        seg_end(text, p, g).unwrap() <= text.len(),
{
    let e1: int = if wild_letter(g) {
        p + 1
    } else {
        p + letter_lit(g).len()
    };
    let e2 = e1 + diac_lit(g).len();
    lemma_run_bounds(text, e2);
    lemma_run_bounds(text, e2 + diac_run(text, e2));
}

/// A whole matched template never ends before it began.
proof fn lemma_segs_end_ge(text: Seq<char>, p: int, segs: Seq<PatternSegment>)
    requires
        0 <= p <= text.len(),
        segs_end(text, p, segs) matches Some(e),
    ensures
        segs_end(text, p, segs).unwrap() >= p,
        segs_end(text, p, segs).unwrap() <= text.len(),
    decreases segs.len(),
{
    if segs.len() > 0 {
        lemma_runs_at(text, p, segs[0]);
        let e0 = seg_end(text, p, segs[0]).unwrap();
        lemma_segs_end_ge(text, e0, segs.skip(1));
    }
}

// ----- executable matching ------------------------------------------------

/// Where the run of diacritics starting at `p` ends.
fn diac_run_exec(text: &Vec<char>, p: usize) -> (r: usize)
    requires
        p <= text@.len(),
    ensures
        r == p + diac_run(text@, p as int),
        r <= text@.len(),
    decreases text@.len() - p,
{
    if p < text.len() && is_diacritic_exec(text[p]) {
        diac_run_exec(text, p + 1)
    } else {
        p
    }
}

/// Where the run of elongation marks starting at `p` ends.
fn tat_run_exec(text: &Vec<char>, p: usize) -> (r: usize)
    requires
        p <= text@.len(),
    ensures
        r == p + tat_run(text@, p as int),
        r <= text@.len(),
    decreases text@.len() - p,
{
    if p < text.len() && text[p] == '\u{0640}' {
        tat_run_exec(text, p + 1)
    } else {
        p
    }
}

/// Whether `lit` occurs at position `p`, executably.
fn lit_at_exec(text: &Vec<char>, p: usize, lit: &Vec<char>) -> (r: bool)
    requires
        p <= text@.len(),
    ensures
        r == lit_at(text@, p as int, lit@),
        r ==> p + lit@.len() <= text@.len(),
{
    let n = text.len();
    if lit.len() > n - p {
        proof {
            assert(!lit_at(text@, p as int, lit@));
        }
        return false;
    }
    let m = lit.len();
    let mut i: usize = 0;
    while i < m
        invariant
            i <= m,
            m == lit@.len(),
            n == text@.len(),
            p + m <= n,
            forall|k: int| 0 <= k < i ==> text@[p + k] == lit@[k],
        decreases m - i,
    {
        if text[p + i] != lit[i] {
            proof {
                if lit_at(text@, p as int, lit@) {
                    assert(text@.subrange(p as int, p + lit@.len())[i as int] == lit@[i as int]);
                    assert(false);
                }
            }
            return false;
        }
        i = i + 1;
    }
    proof {
        assert(text@.subrange(p as int, p + lit@.len()) =~= lit@);
    }
    true
}

/// The prepared form of one template position.
struct PreparedSeg {
    wild: bool,
    letter: Vec<char>,
    diac: Vec<char>,
}

/// Prepares the literal parts of every position once.
fn prepare_segs(segs: &Vec<PatternSegment>) -> (r: Vec<PreparedSeg>)
    ensures
        r@.len() == segs@.len(),
        forall|k: int|
            0 <= k < segs@.len() ==> {
                let pk = #[trigger] r@[k];
                &&& pk.wild == wild_letter(segs@[k])
                &&& pk.letter@ == letter_lit(segs@[k])
                &&& pk.diac@ == diac_lit(segs@[k])
            },
{
    let mut out: Vec<PreparedSeg> = Vec::new();
    let mut i: usize = 0;
    while i < segs.len()
        invariant
            i <= segs@.len(),
            out@.len() == i,
            forall|k: int|
                0 <= k < i ==> {
                    let pk = #[trigger] out@[k];
                    &&& pk.wild == wild_letter(segs@[k])
                    &&& pk.letter@ == letter_lit(segs@[k])
                    &&& pk.diac@ == diac_lit(segs@[k])
                },
        decreases segs@.len() - i,
    {
        let g = &segs[i];
        let wild = g.any_letter || g.letter.is_none();
        let letter: Vec<char> = match &g.letter {
            Some(l) => chars_of(l.as_str()),
            None => Vec::new(),
        };
        let diac: Vec<char> = if g.any_diacritics {
            Vec::new()
        } else {
            match &g.diacritics {
                Some(ds) => {
                    let ghost dviews = ds@.map_values(|d: String| d@);
                    let mut all: Vec<char> = Vec::new();
                    let mut m: usize = 0;
                    proof {
                        assert(dviews.take(0) =~= Seq::<Seq<char>>::empty());
                        assert(all@ =~= concat_all(dviews.take(0)));
                    }
                    while m < ds.len()
                        invariant
                            m <= ds@.len(),
                            dviews == ds@.map_values(|d: String| d@),
                            all@ == concat_all(dviews.take(m as int)),
                        decreases ds@.len() - m,
                    {
                        proof {
                            assert(dviews.take(m + 1 as int).drop_last() =~= dviews.take(
                                m as int,
                            ));
                            assert(dviews.take(m + 1 as int).last() == dviews[m as int]);
                        }
                        let dv = chars_of(ds[m].as_str());
                        let all2 = concat_chars(&all, &dv);
                        all = all2;
                        m = m + 1;
                    }
                    proof {
                        assert(dviews.take(ds@.len() as int) =~= dviews);
                    }
                    all
                },
                None => Vec::new(),
            }
        };
        out.push(PreparedSeg { wild, letter, diac });
        i = i + 1;
    }
    out
}

/// Tries one position at `p`, returning where it ends.
fn seg_end_exec(text: &Vec<char>, p: usize, pk: &PreparedSeg, g: Ghost<PatternSegment>) -> (r:
    Option<usize>)
    requires
        p <= text@.len(),
        pk.wild == wild_letter(g@),
        pk.letter@ == letter_lit(g@),
        pk.diac@ == diac_lit(g@),
    ensures
        match r {
            Some(e) => seg_end(text@, p as int, g@) == Some(e as int) && e <= text@.len(),
            None => seg_end(text@, p as int, g@) is None,
        },
{
    let n = text.len();
    let e1: usize = if pk.wild {
        if p < n && is_arabic_letter_exec(text[p]) {
            p + 1
        } else {
            return None;
        }
    } else {
        if lit_at_exec(text, p, &pk.letter) {
            proof {
                assert(p + pk.letter@.len() <= text@.len());
            }
            p + pk.letter.len()
        } else {
            return None;
        }
    };
    if !lit_at_exec(text, e1, &pk.diac) {
        return None;
    }
    proof {
        assert(e1 + pk.diac@.len() <= text@.len());
    }
    let e2 = e1 + pk.diac.len();
    let e3 = diac_run_exec(text, e2);
    let e4 = tat_run_exec(text, e3);
    Some(e4)
}

/// Tries the whole template at `p`, without anchors.
fn segs_end_exec(
    text: &Vec<char>,
    p: usize,
    pks: &Vec<PreparedSeg>,
    segs: &Vec<PatternSegment>,
) -> (r: Option<usize>)
    requires
        p <= text@.len(),
        pks@.len() == segs@.len(),
        forall|k: int|
            0 <= k < segs@.len() ==> {
                let pk = #[trigger] pks@[k];
                &&& pk.wild == wild_letter(segs@[k])
                &&& pk.letter@ == letter_lit(segs@[k])
                &&& pk.diac@ == diac_lit(segs@[k])
            },
    ensures
        match r {
            Some(e) => segs_end(text@, p as int, segs@) == Some(e as int) && e <= text@.len(),
            None => segs_end(text@, p as int, segs@) is None,
        },
{
    let mut pos: usize = p;
    let mut k: usize = 0;
    proof {
        assert(segs@.skip(0) =~= segs@);
    }
    while k < pks.len()
        invariant
            k <= segs@.len(),
            pks@.len() == segs@.len(),
            pos <= text@.len(),
            forall|m: int|
                0 <= m < segs@.len() ==> {
                    let pk = #[trigger] pks@[m];
                    &&& pk.wild == wild_letter(segs@[m])
                    &&& pk.letter@ == letter_lit(segs@[m])
                    &&& pk.diac@ == diac_lit(segs@[m])
                },
            segs_end(text@, p as int, segs@) == segs_end(
                text@,
                pos as int,
                segs@.skip(k as int),
            ),
        decreases segs@.len() - k,
    {
        proof {
            assert(segs@.skip(k as int)[0] == segs@[k as int]);
            assert(segs@.skip(k as int).skip(1) =~= segs@.skip(k + 1 as int));
        }
        match seg_end_exec(text, pos, &pks[k], Ghost(segs@[k as int])) {
            Some(e) => {
                pos = e;
            },
            None => {
                return None;
            },
        }
        k = k + 1;
    }
    proof {
        assert(segs@.skip(segs@.len() as int).len() == 0);
    }
    Some(pos)
}

/// Counts the non-overlapping anchored matches of a template in a text.
pub fn count_pattern_matches(
    text: &Vec<char>,
    segs: &Vec<PatternSegment>,
    allow_prefix: bool,
    allow_suffix: bool,
) -> (r: usize)
    ensures
        r == match_count(text@, segs@, allow_prefix, allow_suffix, 0),
{
    let pks = prepare_segs(segs);
    let n = text.len();
    let mut count: usize = 0;
    let mut p: usize = 0;
    while p < n
        invariant
            p <= n,
            n == text@.len(),
            count <= p,
            pks@.len() == segs@.len(),
            forall|k: int|
                0 <= k < segs@.len() ==> {
                    let pk = #[trigger] pks@[k];
                    &&& pk.wild == wild_letter(segs@[k])
                    &&& pk.letter@ == letter_lit(segs@[k])
                    &&& pk.diac@ == diac_lit(segs@[k])
                },
            count + match_count(text@, segs@, allow_prefix, allow_suffix, p as int) == match_count(
                text@,
                segs@,
                allow_prefix,
                allow_suffix,
                0,
            ),
        decreases n - p,
    {
        let hit: Option<usize> = match segs_end_exec(text, p, &pks, segs) {
            Some(e) => {
                let pre_ok = allow_prefix || p == 0 || crate::text::is_space_char(text[p - 1]);
                let suf_ok = allow_suffix || e == n || crate::text::is_space_char(text[e]);
                if pre_ok && suf_ok {
                    Some(e)
                } else {
                    None
                }
            },
            None => None,
        };
        match hit {
            Some(e) => {
                count = count + 1;
                if e > p {
                    p = e;
                } else {
                    p = p + 1;
                }
            },
            None => {
                p = p + 1;
            },
        }
    }
    count
}

// ----- the compiled regular expression ------------------------------------

/// Whether a character is a regular-expression metacharacter that an
/// escape must protect.
pub open spec fn is_meta(c: char) -> bool {
    c == '\\' || c == '.' || c == '+' || c == '*' || c == '?' || c == '(' || c == ')' || c == '|'
        || c == '[' || c == ']' || c == '{' || c == '}' || c == '^' || c == '$' || c == '#' || c
        == '&' || c == '-' || c == '~'
}

/// The text with every metacharacter protected by a backslash.
pub open spec fn esc(s: Seq<char>) -> Seq<char>
    decreases s.len(),
{
    if s.len() == 0 {
        Seq::empty()
    } else {
        esc(s.drop_last()) + (if is_meta(s.last()) {
            seq!['\\', s.last()]
        } else {
            seq![s.last()]
        })
    }
}

fn esc_exec(s: &Vec<char>) -> (r: Vec<char>)
    ensures
        r@ == esc(s@),
{
    let mut out: Vec<char> = Vec::new();
    let mut i: usize = 0;
    proof {
        assert(s@.take(0) =~= Seq::<char>::empty());
        assert(out@ =~= esc(s@.take(0)));
    }
    while i < s.len()
        invariant
            i <= s@.len(),
            out@ == esc(s@.take(i as int)),
        decreases s@.len() - i,
    {
        proof {
            assert(s@.take(i + 1 as int).drop_last() =~= s@.take(i as int));
            assert(s@.take(i + 1 as int).last() == s@[i as int]);
        }
        let c = s[i];
        if c == '\\' || c == '.' || c == '+' || c == '*' || c == '?' || c == '(' || c == ')' || c
            == '|' || c == '[' || c == ']' || c == '{' || c == '}' || c == '^' || c == '$' || c
            == '#' || c == '&' || c == '-' || c == '~' {
            out.push('\\');
            out.push(c);
            proof {
                assert(out@ =~= esc(s@.take(i as int)) + seq!['\\', s@[i as int]]);
            }
        } else {
            out.push(c);
            proof {
                assert(out@ =~= esc(s@.take(i as int)) + seq![s@[i as int]]);
            }
        }
        i = i + 1;
    }
    proof {
        assert(s@.take(s@.len() as int) =~= s@);
    }
    out
}

/// The regular-expression source of one position: its letter part, its
/// diacritic part, and an optional elongation mark.
pub open spec fn seg_regex(g: PatternSegment) -> Seq<char> {
    let letter_part = if wild_letter(g) {
        "[\\u{0621}-\\u{064A}\\u{0671}-\\u{0673}\\u{0675}]"@
    } else {
        esc(letter_lit(g))
    };
    let diac_class = "[\\u{064B}-\\u{0652}\\u{0670}\\u{0653}-\\u{0655}]"@;
    let diac_part = if g.any_diacritics {
        diac_class + "*"@
    } else {
        match g.diacritics {
            Some(ds) => esc(concat_all(ds@.map_values(|d: String| d@))) + diac_class + "*"@,
            None => diac_class + "*"@,
        }
    };
    letter_part + diac_part + "\\u{0640}*"@
}

pub open spec fn segs_regex(segs: Seq<PatternSegment>) -> Seq<char>
    decreases segs.len(),
{
    if segs.len() == 0 {
        Seq::empty()
    } else {
        segs_regex(segs.drop_last()) + seg_regex(segs.last())
    }
}

/// The whole regular-expression source of a template, with the boundary
/// anchors omitted on each permissive side; `None` for an empty template.
pub open spec fn template_regex(
    segs: Seq<PatternSegment>,
    allow_prefix: bool,
    allow_suffix: bool,
) -> Option<Seq<char>> {
    if segs.len() == 0 {
        None
    } else {
        let left = if allow_prefix {
            Seq::<char>::empty()
        } else {
            "(?<!\\S)"@
        };
        let right = if allow_suffix {
            Seq::<char>::empty()
        } else {
            "(?!\\S)"@
        };
        Some(left + segs_regex(segs) + right)
    }
}

/// Compiles a template into the source text of an Arabic-script regular
/// expression, honoring the attachment flags.
pub fn pattern_segments_to_regex(
    segments: &Vec<PatternSegment>,
    allow_prefix: bool,
    allow_suffix: bool,
) -> (r: Option<String>)
    ensures
        match r {
            Some(s) => template_regex(segments@, allow_prefix, allow_suffix) == Some(s@),
            None => segments@.len() == 0,
        },
{
    if segments.len() == 0 {
        return None;
    }
    let mut body: Vec<char> = Vec::new();
    let mut i: usize = 0;
    proof {
        assert(segments@.take(0) =~= Seq::<PatternSegment>::empty());
        assert(body@ =~= segs_regex(segments@.take(0)));
    }
    while i < segments.len()
        invariant
            i <= segments@.len(),
            body@ == segs_regex(segments@.take(i as int)),
        decreases segments@.len() - i,
    {
        proof {
            assert(segments@.take(i + 1 as int).drop_last() =~= segments@.take(i as int));
            assert(segments@.take(i + 1 as int).last() == segments@[i as int]);
        }
        let g = &segments[i];
        let wild = g.any_letter || g.letter.is_none();
        let letter_part: Vec<char> = if wild {
            chars_of("[\\u{0621}-\\u{064A}\\u{0671}-\\u{0673}\\u{0675}]")
        } else {
            match &g.letter {
                Some(l) => esc_exec(&chars_of(l.as_str())),
                None => Vec::new(),
            }
        };
        let diac_class = chars_of("[\\u{064B}-\\u{0652}\\u{0670}\\u{0653}-\\u{0655}]");
        let star = chars_of("*");
        let diac_part: Vec<char> = if g.any_diacritics {
            concat_chars(&diac_class, &star)
        } else {
            match &g.diacritics {
                Some(ds) => {
                    let ghost dviews = ds@.map_values(|d: String| d@);
                    let mut all: Vec<char> = Vec::new();
                    let mut m: usize = 0;
                    proof {
                        assert(dviews.take(0) =~= Seq::<Seq<char>>::empty());
                        assert(all@ =~= concat_all(dviews.take(0)));
                    }
                    while m < ds.len()
                        invariant
                            m <= ds@.len(),
                            dviews == ds@.map_values(|d: String| d@),
                            all@ == concat_all(dviews.take(m as int)),
                        decreases ds@.len() - m,
                    {
                        proof {
                            assert(dviews.take(m + 1 as int).drop_last() =~= dviews.take(
                                m as int,
                            ));
                            assert(dviews.take(m + 1 as int).last() == dviews[m as int]);
                        }
                        let dv = chars_of(ds[m].as_str());
                        let all2 = concat_chars(&all, &dv);
                        all = all2;
                        m = m + 1;
                    }
                    proof {
                        assert(dviews.take(ds@.len() as int) =~= dviews);
                    }
                    let escd = esc_exec(&all);
                    let p1 = concat_chars(&escd, &diac_class);
                    concat_chars(&p1, &star)
                },
                None => concat_chars(&diac_class, &star),
            }
        };
        let tat = chars_of("\\u{0640}*");
        let p1 = concat_chars(&letter_part, &diac_part);
        let part = concat_chars(&p1, &tat);
        let b2 = concat_chars(&body, &part);
        body = b2;
        proof {
            assert(part@ == seg_regex(segments@[i as int]));
        }
        i = i + 1;
    }
    proof {
        assert(segments@.take(segments@.len() as int) =~= segments@);
    }
    let left: Vec<char> = if allow_prefix {
        Vec::new()
    } else {
        chars_of("(?<!\\S)")
    };
    let right: Vec<char> = if allow_suffix {
        Vec::new()
    } else {
        chars_of("(?!\\S)")
    };
    let p1 = concat_chars(&left, &body);
    let full = concat_chars(&p1, &right);
    proof {
        if allow_prefix {
            assert(left@ =~= Seq::<char>::empty());
        }
        if allow_suffix {
            assert(right@ =~= Seq::<char>::empty());
        }
    }
    Some(string_of(&full))
}

// ----- scanning stored verses ---------------------------------------------

/// The `(verse key, count)` pairs of the verses a template matches, in
/// order, over `(key, text)` pairs of stored verse text.
pub open spec fn verse_hits(
    texts: Seq<(Seq<char>, Seq<char>)>,
    segs: Seq<PatternSegment>,
    allow_prefix: bool,
    allow_suffix: bool,
) -> Seq<(Seq<char>, nat)>
    decreases texts.len(),
{
    if texts.len() == 0 {
        Seq::empty()
    } else {
        let rest = verse_hits(texts.drop_last(), segs, allow_prefix, allow_suffix);
        let c = match_count(texts.last().1, segs, allow_prefix, allow_suffix, 0);
        if c > 0 {
            rest.push((texts.last().0, c))
        } else {
            rest
        }
    }
}

/// The total number of matches over all given verse texts.
pub open spec fn total_matches(
    texts: Seq<(Seq<char>, Seq<char>)>,
    segs: Seq<PatternSegment>,
    allow_prefix: bool,
    allow_suffix: bool,
) -> nat
    decreases texts.len(),
{
    if texts.len() == 0 {
        0
    } else {
        total_matches(texts.drop_last(), segs, allow_prefix, allow_suffix) + match_count(
            texts.last().1,
            segs,
            allow_prefix,
            allow_suffix,
            0,
        )
    }
}

/// Runs a template against every given verse text directly — not via the
/// index, because ranking needs a per-verse occurrence count.  Returns
/// the matching verses' keys with their counts, the listed results
/// truncated to `limit`, together with the total occurrence count over
/// all verses (clamped at the machine's limit).
pub fn search_pattern_texts(
    texts: &Vec<(String, String)>,
    segments: &Vec<PatternSegment>,
    allow_prefix: bool,
    allow_suffix: bool,
    limit: usize,
) -> (r: (Vec<(String, usize)>, usize))
    ensures
        ({
            let hs = verse_hits(
                texts@.map_values(|t: (String, String)| (t.0@, t.1@)),
                segments@,
                allow_prefix,
                allow_suffix,
            );
            let total = total_matches(
                texts@.map_values(|t: (String, String)| (t.0@, t.1@)),
                segments@,
                allow_prefix,
                allow_suffix,
            );
            &&& r.0@.len() == crate::queries::min_int(limit as int, hs.len() as int)
            &&& forall|j: int|
                0 <= j < r.0@.len() ==> (#[trigger] r.0@[j]).0@ == hs[j].0 && r.0@[j].1 as nat
                    == hs[j].1
            &&& r.1 as nat == (if total <= usize::MAX as nat {
                total
            } else {
                usize::MAX as nat
            })
        }),
{
    let ghost tviews = texts@.map_values(|t: (String, String)| (t.0@, t.1@));
    let mut out: Vec<(String, usize)> = Vec::new();
    let mut total: usize = 0;
    let mut i: usize = 0;
    proof {
        assert(tviews.take(0) =~= Seq::<(Seq<char>, Seq<char>)>::empty());
    }
    while i < texts.len()
        invariant
            i <= texts@.len(),
            tviews == texts@.map_values(|t: (String, String)| (t.0@, t.1@)),
            ({
                let hs = verse_hits(
                    tviews.take(i as int),
                    segments@,
                    allow_prefix,
                    allow_suffix,
                );
                let tm = total_matches(tviews.take(i as int), segments@, allow_prefix, allow_suffix);
                &&& out@.len() == crate::queries::min_int(limit as int, hs.len() as int)
                &&& forall|j: int|
                    0 <= j < out@.len() ==> (#[trigger] out@[j]).0@ == hs[j].0 && out@[j].1
                        as nat == hs[j].1
                &&& total as nat == (if tm <= usize::MAX as nat {
                    tm
                } else {
                    usize::MAX as nat
                })
            }),
        decreases texts@.len() - i,
    {
        proof {
            assert(tviews.take(i + 1 as int).drop_last() =~= tviews.take(i as int));
            assert(tviews.take(i + 1 as int).last() == tviews[i as int]);
        }
        let tv = chars_of(texts[i].1.as_str());
        let c = count_pattern_matches(&tv, segments, allow_prefix, allow_suffix);
        if c > usize::MAX - total {
            total = usize::MAX;
        } else {
            total = total + c;
        }
        if c > 0 && out.len() < limit {
            out.push((texts[i].0.clone(), c));
        }
        i = i + 1;
    }
    proof {
        assert(tviews.take(texts@.len() as int) =~= tviews);
    }
    (out, total)
}

// ----- laws ---------------------------------------------------------------

/// The number of base letters in a text range.
pub open spec fn letter_count(text: Seq<char>, p: int, e: int) -> nat
    decreases e - p,
{
    if p >= e {
        0
    } else {
        (if 0 <= p < text.len() && is_arabic_letter(text[p]) {
            1nat
        } else {
            0nat
        }) + letter_count(text, p + 1, e)
    }
}

/// Whether every position of a template consumes exactly one base
/// letter: a wildcard, or a fixed single Arabic letter.
pub open spec fn single_letter_positions(segs: Seq<PatternSegment>) -> bool {
    forall|k: int|
        0 <= k < segs.len() ==> (wild_letter(#[trigger] segs[k]) || (letter_lit(segs[k]).len()
            == 1 && is_arabic_letter(letter_lit(segs[k])[0])))
}

proof fn lemma_run_letters(text: Seq<char>, p: int, e: int)
    requires
        0 <= p <= e <= text.len(),
        forall|k: int| p <= k < e ==> !is_arabic_letter(#[trigger] text[k]),
    ensures
        letter_count(text, p, e) == 0,
    decreases e - p,
{
    if p < e {
        lemma_run_letters(text, p + 1, e);
    }
}

proof fn lemma_letter_count_split(text: Seq<char>, p: int, m: int, e: int)
    requires
        p <= m <= e,
    ensures
        letter_count(text, p, e) == letter_count(text, p, m) + letter_count(text, m, e),
    decreases m - p,
{
    if p < m {
        lemma_letter_count_split(text, p + 1, m, e);
    }
}

/// No elongation mark occurs in the text.
pub open spec fn no_tatweel(text: Seq<char>) -> bool {
    forall|k: int| 0 <= k < text.len() ==> !is_tatweel(#[trigger] text[k])
}

proof fn lemma_diac_run_no_letters(text: Seq<char>, p: int, k: int)
    requires
        0 <= p <= text.len(),
        p <= k < p + diac_run(text, p),
    ensures
        is_diacritic(text[k]),
        k < text.len(),
    decreases k - p,
{
    if k == p {
    } else {
        lemma_diac_run_no_letters(text, p + 1, k);
    }
}

proof fn lemma_tat_run_no_letters(text: Seq<char>, p: int, k: int)
    requires
        0 <= p <= text.len(),
        p <= k < p + tat_run(text, p),
    ensures
        is_tatweel(text[k]),
        k < text.len(),
    decreases k - p,
{
    if k == p {
    } else {
        lemma_tat_run_no_letters(text, p + 1, k);
    }
}

/// One single-letter position consumes exactly one base letter, in a
/// text free of elongation marks.
proof fn lemma_seg_letters(text: Seq<char>, p: int, g: PatternSegment)
    requires
        0 <= p <= text.len(),
        no_tatweel(text),
        seg_end(text, p, g) matches Some(e),
        wild_letter(g) || (letter_lit(g).len() == 1 && is_arabic_letter(letter_lit(g)[0])),
        forall|x: int| 0 <= x < diac_lit(g).len() ==> is_diacritic(#[trigger] diac_lit(g)[x]),
    ensures
        letter_count(text, p, seg_end(text, p, g).unwrap()) == 1,
{
    let e = seg_end(text, p, g).unwrap();
    lemma_runs_at(text, p, g);
    let e1: int = if wild_letter(g) {
        p + 1
    } else {
        p + letter_lit(g).len()
    };
    assert(is_arabic_letter(text[p])) by {
        if !wild_letter(g) {
            assert(text.subrange(p, p + letter_lit(g).len())[0] == text[p]);
        }
    }
    let e2 = e1 + diac_lit(g).len();
    lemma_run_bounds(text, e2);
    let e3 = e2 + diac_run(text, e2);
    lemma_run_bounds(text, e3);
    assert forall|k: int| e1 <= k < e implies !is_arabic_letter(#[trigger] text[k]) by {
        if k < e2 {
            // Inside the required diacritic literal: those characters are
            // the diacritics the template names; the subrange equality
            // places them in the text.
            assert(text.subrange(e1, e1 + diac_lit(g).len())[k - e1] == text[k]);
            lemma_diac_lit_marks(g, k - e1);
        } else if k < e3 {
            lemma_diac_run_no_letters(text, e2, k);
        } else {
            lemma_tat_run_no_letters(text, e3, k);
            assert(!is_tatweel(text[k]));
            assert(false);
        }
    }
    lemma_run_letters(text, e1, e);
    lemma_letter_count_split(text, p, p + 1, e);
    lemma_run_letters(text, p + 1, e1);
    lemma_letter_count_split(text, p + 1, e1, e);
}

/// Characters named in a diacritic literal are taken as written; the law
/// on letter counts only needs that they are not base letters, which is
/// not true of arbitrary strings — so the law requires templates whose
/// named diacritics really are marks.
pub open spec fn diacritics_are_marks(segs: Seq<PatternSegment>) -> bool {
    forall|k: int, m: int|
        0 <= k < segs.len() && 0 <= m < diac_lit(segs[k]).len() ==> is_diacritic(
            #[trigger] diac_lit(segs[k])[m],
        )
}

proof fn lemma_diac_lit_marks(g: PatternSegment, m: int)
    requires
        0 <= m < diac_lit(g).len(),
        forall|x: int| 0 <= x < diac_lit(g).len() ==> is_diacritic(#[trigger] diac_lit(g)[x]),
    ensures
        !is_arabic_letter(diac_lit(g)[m]),
{
}

/// A whole template of single-letter positions consumes exactly as many
/// base letters as it has positions.
proof fn lemma_segs_letters(text: Seq<char>, p: int, segs: Seq<PatternSegment>)
    requires
        0 <= p <= text.len(),
        no_tatweel(text),
        segs_end(text, p, segs) matches Some(e),
        single_letter_positions(segs),
        diacritics_are_marks(segs),
    ensures
        letter_count(text, p, segs_end(text, p, segs).unwrap()) == segs.len(),
    decreases segs.len(),
{
    if segs.len() == 0 {
    } else {
        lemma_runs_at(text, p, segs[0]);
        let e0 = seg_end(text, p, segs[0]).unwrap();
        assert(forall|x: int|
            0 <= x < diac_lit(segs[0]).len() ==> is_diacritic(#[trigger] diac_lit(segs[0])[x]));
        lemma_seg_letters(text, p, segs[0]);
        assert(single_letter_positions(segs.skip(1))) by {
            assert(forall|k: int|
                0 <= k < segs.skip(1).len() ==> #[trigger] segs.skip(1)[k] == segs[k + 1]);
        }
        assert(diacritics_are_marks(segs.skip(1))) by {
            assert(forall|k: int|
                0 <= k < segs.skip(1).len() ==> #[trigger] segs.skip(1)[k] == segs[k + 1]);
        }
        lemma_segs_letters(text, e0, segs.skip(1));
        lemma_segs_end_ge(text, e0, segs.skip(1));
        lemma_letter_count_split(text, p, e0, segs_end(text, p, segs).unwrap());
    }
}

/// Pattern anchoring: with neither prefix nor suffix attachment, a
/// template of single-letter positions cannot match inside a word with a
/// different number of base letters.  In particular a two-position
/// template never matches a three-letter word that merely contains its
/// two letters.  The word must be free of elongation marks, which the
/// letter block would otherwise count.
pub proof fn lemma_pattern_anchoring(text: Seq<char>, segs: Seq<PatternSegment>)
    requires
        !crate::text::has_space(text),
        no_tatweel(text),
        single_letter_positions(segs),
        diacritics_are_marks(segs),
        letter_count(text, 0, text.len() as int) != segs.len(),
    ensures
        forall|p: int|
            0 <= p < text.len() ==> anchored_match(text, p, segs, false, false) is None,
        match_count(text, segs, false, false, 0) == 0,
{
    assert forall|p: int| 0 <= p < text.len() implies anchored_match(
        text,
        p,
        segs,
        false,
        false,
    ) is None by {
        let am = anchored_match(text, p, segs, false, false);
        if am is Some {
            let e = am.unwrap();
            // Anchors force the match to span the whole word.
            if p != 0 {
                assert(is_space(text[p - 1]));
                assert(false);
            }
            lemma_segs_end_ge(text, p, segs);
            if e != text.len() {
                assert(is_space(text[e]));
                assert(false);
            }
            lemma_segs_letters(text, 0, segs);
            assert(false);
        }
    }
    lemma_no_match_count(text, segs, 0);
}

proof fn lemma_no_match_count(text: Seq<char>, segs: Seq<PatternSegment>, p: int)
    requires
        0 <= p,
        forall|q: int|
            0 <= q < text.len() ==> anchored_match(text, q, segs, false, false) is None,
    ensures
        match_count(text, segs, false, false, p) == 0,
    decreases text.len() - p,
{
    if p < text.len() {
        lemma_no_match_count(text, segs, p + 1);
    }
}

} // verus!
