//! The corpus normalizers: three independent raw tagging formats converge
//! on the canonical segment model.  The primary line-delimited format is
//! already close to canonical and only needs ids synthesized; the legacy
//! tagged-text format carries a parenthesized coordinate reference and a
//! pipe-delimited tag bag; the tabular export carries fixed columns and an
//! orthographic normalization pass for stems.

use vstd::prelude::*;
use crate::consolidate::MorphEntry;
use crate::model::{Segment, SegmentView};
use crate::text::{chars_of, chars_start_with, concat_chars, eq_ignore_case, sep_split,
    string_of, trimmed, upper_seq};

verus! {

// ----- small helpers --------------------------------------------------------

/// The numeric value of a field, zero when it does not read as a signed
/// numeral that fits.
pub open spec fn num_or_zero(s: Seq<char>) -> int {
    if crate::num::is_int_str(s) && i64::MIN <= crate::num::int_str_val(s) <= i64::MAX {
        crate::num::int_str_val(s)
    } else {
        0
    }
}

fn num_or_zero_exec(v: &Vec<char>) -> (r: i64)
    ensures
        r as int == num_or_zero(v@),
{
    match crate::num::parse_i64(v) {
        Some(x) => x,
        None => 0,
    }
}

/// The index value of a field, zero when it does not read as an unsigned
/// numeral that fits.
pub open spec fn idx_or_zero(s: Seq<char>) -> int {
    if crate::num::all_digits(s) && crate::num::digits_val(s) <= usize::MAX {
        crate::num::digits_val(s) as int
    } else {
        0
    }
}

fn idx_or_zero_exec(v: &Vec<char>) -> (r: usize)
    ensures
        r as int == idx_or_zero(v@),
{
    match crate::num::parse_u64(v) {
        Some(x) => {
            if x <= usize::MAX as u64 {
                x as usize
            } else {
                0
            }
        },
        None => 0,
    }
}

/// Length of the leading run of `c`.
pub open spec fn lead_run(s: Seq<char>, c: char) -> nat
    decreases s.len(),
{
    if s.len() > 0 && s[0] == c {
        1 + lead_run(s.skip(1), c)
    } else {
        0
    }
}

/// Length of the trailing run of `c`.
pub open spec fn tail_run(s: Seq<char>, c: char) -> nat
    decreases s.len(),
{
    if s.len() > 0 && s[s.len() - 1] == c {
        1 + tail_run(s.take(s.len() - 1), c)
    } else {
        0
    }
}

/// The text with every leading and trailing `c` removed.
pub open spec fn strip_char(s: Seq<char>, c: char) -> Seq<char> {
    if lead_run(s, c) == s.len() {
        Seq::empty()
    } else {
        s.subrange(lead_run(s, c) as int, s.len() - tail_run(s, c))
    }
}

proof fn lemma_lead_run_shape(s: Seq<char>, c: char)
    ensures
        lead_run(s, c) <= s.len(),
        forall|k: int| 0 <= k < lead_run(s, c) ==> s[k] == c,
        lead_run(s, c) < s.len() ==> s[lead_run(s, c) as int] != c,
    decreases s.len(),
{
    if s.len() > 0 && s[0] == c {
        lemma_lead_run_shape(s.skip(1), c);
        assert forall|k: int| 0 <= k < lead_run(s, c) implies s[k] == c by {
            if k > 0 {
                assert(s[k] == s.skip(1)[k - 1]);
            }
        }
        if lead_run(s, c) < s.len() {
            assert(s[lead_run(s, c) as int] == s.skip(1)[lead_run(s.skip(1), c) as int]);
        }
    }
}

proof fn lemma_tail_run_shape(s: Seq<char>, c: char)
    ensures
        tail_run(s, c) <= s.len(),
        forall|k: int| s.len() - tail_run(s, c) <= k < s.len() ==> s[k] == c,
        tail_run(s, c) < s.len() ==> s[s.len() - tail_run(s, c) - 1] != c,
    decreases s.len(),
{
    if s.len() > 0 && s[s.len() - 1] == c {
        lemma_tail_run_shape(s.take(s.len() - 1), c);
        assert forall|k: int| s.len() - tail_run(s, c) <= k < s.len() implies s[k] == c by {
            if k < s.len() - 1 {
                assert(s[k] == s.take(s.len() - 1)[k]);
            }
        }
        if tail_run(s, c) < s.len() {
            assert(s[s.len() - tail_run(s, c) - 1] == s.take(s.len() - 1)[s.len() - 1 - tail_run(
                s.take(s.len() - 1),
                c,
            ) - 1]);
        }
    }
}

proof fn lemma_tail_run_all(s: Seq<char>, c: char)
    requires
        forall|k: int| 0 <= k < s.len() ==> s[k] == c,
    ensures
        tail_run(s, c) == s.len(),
    decreases s.len(),
{
    if s.len() > 0 {
        lemma_tail_run_all(s.take(s.len() - 1), c);
    }
}

/// Removes every leading and trailing `c`.
fn strip_char_exec(v: &Vec<char>, c: char) -> (r: Vec<char>)
    ensures
        r@ == strip_char(v@, c),
{
    let n = v.len();
    let mut a: usize = 0;
    proof {
        assert(lead_run(v@.skip(0), c) == lead_run(v@, c)) by {
            assert(v@.skip(0) =~= v@);
        }
    }
    while a < n && v[a] == c
        invariant
            a <= n,
            n == v@.len(),
            lead_run(v@, c) == a + lead_run(v@.skip(a as int), c),
        decreases n - a,
    {
        proof {
            assert(v@.skip(a as int)[0] == v@[a as int]);
            assert(lead_run(v@.skip(a as int), c) == 1 + lead_run(v@.skip(a as int).skip(1), c));
            assert(v@.skip(a as int).skip(1) =~= v@.skip(a + 1 as int));
        }
        a = a + 1;
    }
    proof {
        if a < n {
            assert(v@.skip(a as int)[0] == v@[a as int]);
        } else {
            assert(v@.skip(a as int).len() == 0);
        }
        assert(lead_run(v@.skip(a as int), c) == 0);
        assert(lead_run(v@, c) == a);
    }
    if a == n {
        let r: Vec<char> = Vec::new();
        return r;
    }
    let mut b: usize = n;
    proof {
        assert(tail_run(v@.take(n as int), c) == tail_run(v@, c)) by {
            assert(v@.take(n as int) =~= v@);
        }
    }
    while b > a && v[b - 1] == c
        invariant
            a <= b <= n,
            n == v@.len(),
            a == lead_run(v@, c),
            a < n,
            tail_run(v@, c) == (n - b) + tail_run(v@.take(b as int), c),
        decreases b,
    {
        proof {
            let t = v@.take(b as int);
            assert(t[t.len() - 1] == v@[b - 1]);
            assert(tail_run(t, c) == 1 + tail_run(t.take(t.len() - 1), c));
            assert(t.take(t.len() - 1) =~= v@.take(b - 1));
        }
        b = b - 1;
    }
    proof {
        let t = v@.take(b as int);
        if b > a {
            assert(t[t.len() - 1] == v@[b - 1]);
            assert(tail_run(t, c) == 0);
        } else {
            lemma_lead_run_shape(v@, c);
            assert(forall|k: int| 0 <= k < a ==> v@[k] == c);
            lemma_tail_run_all(t, c);
        }
        if b == a {
            lemma_lead_run_shape(v@, c);
            assert(v@[a as int] != c);
            lemma_tail_run_shape(v@, c);
            assert(tail_run(v@, c) >= n - a);
            assert(v@[a as int] == c);
            assert(false);
        }
        assert(tail_run(v@, c) == n - b);
    }
    crate::text::sub_chars(v, a, b)
}

// ----- the legacy tagged-text format ----------------------------------------

/// The linguistic content gathered from a pipe-delimited tag bag.
pub ghost struct TagsV {
    pub root: Option<Seq<char>>,
    pub lemma: Option<Seq<char>>,
    pub seg_type: Option<Seq<char>>,
    pub case_: Option<Seq<char>>,
    pub gender: Option<Seq<char>>,
    pub number: Option<Seq<char>>,
    pub person: Option<Seq<char>>,
    pub tense: Option<Seq<char>>,
    pub mood: Option<Seq<char>>,
    pub voice: Option<Seq<char>>,
    pub extras: Seq<Seq<char>>,
}

pub open spec fn empty_tags() -> TagsV {
    TagsV {
        root: None,
        lemma: None,
        seg_type: None,
        case_: None,
        gender: None,
        number: None,
        person: None,
        tense: None,
        mood: None,
        voice: None,
        extras: Seq::empty(),
    }
}

/// Whether a tag names the person feature: the letter `P` followed by a
/// digit between one and three.
pub open spec fn is_person_tag(u: Seq<char>) -> bool {
    u.len() == 2 && u[0] == 'P' && '1' <= u[1] && u[1] <= '3'
}

/// Folding one tag into the gathered content: `ROOT:` and `LEM:` values,
/// the first bare prefix/stem marker as the segment type, the enumerated
/// case, gender, number, person, tense, mood and voice tags, and anything
/// unrecognized kept verbatim as an opaque extra feature.
pub open spec fn tag_step(acc: TagsV, t: Seq<char>) -> TagsV {
    if t.len() >= 5 && t.take(5) == "ROOT:"@ {
        TagsV { root: Some(t.skip(5)), ..acc }
    } else if t.len() >= 4 && t.take(4) == "LEM:"@ {
        TagsV { lemma: Some(t.skip(4)), ..acc }
    } else if acc.seg_type is None && (eq_ignore_case(t, "PREFIX"@) || eq_ignore_case(
        t,
        "STEM"@,
    )) {
        TagsV { seg_type: Some(t), ..acc }
    } else {
        let u = upper_seq(t);
        if u == "GEN"@ || u == "ACC"@ || u == "NOM"@ {
            TagsV { case_: Some(u), ..acc }
        } else if u == "DEF"@ || u == "INDEF"@ {
            TagsV { extras: acc.extras.push(u), ..acc }
        } else if u == "M"@ || u == "F"@ {
            TagsV { gender: Some(u), ..acc }
        } else if u == "SG"@ || u == "PL"@ || u == "DU"@ {
            TagsV { number: Some(u), ..acc }
        } else if is_person_tag(u) {
            TagsV { person: Some(u), ..acc }
        } else if u == "IMPF"@ || u == "PERF"@ || u == "IMPV"@ {
            TagsV { tense: Some(u), ..acc }
        } else if u == "SUBJ"@ || u == "JUS"@ || u == "IND"@ {
            TagsV { mood: Some(u), ..acc }
        } else if u == "ACT"@ || u == "PASS"@ {
            TagsV { voice: Some(u), ..acc }
        } else {
            TagsV { extras: acc.extras.push(t), ..acc }
        }
    }
}

pub open spec fn tags_fold(parts: Seq<Seq<char>>) -> TagsV
    decreases parts.len(),
{
    if parts.len() == 0 {
        empty_tags()
    } else {
        tag_step(tags_fold(parts.drop_last()), parts.last())
    }
}

/// Folds one tag into the gathered content, executably.
fn tag_step_exec(acc: &mut LegacyTags, t: &Vec<char>)
    ensures
        tags_of(*final(acc)) == tag_step(tags_of(*old(acc)), t@),
{
    let root_p = chars_of("ROOT:");
    let lem_p = chars_of("LEM:");
    proof {
        reveal_strlit("ROOT:");
        reveal_strlit("LEM:");
    }
    if chars_start_with(t, &root_p) {
        let rest = crate::text::sub_chars(t, root_p.len(), t.len());
        proof {
            reveal_strlit("ROOT:");
            assert(t@.take(5) == "ROOT:"@);
            assert(rest@ =~= t@.skip(5));
        }
        acc.root = Some(rest);
        return ;
    }
    if chars_start_with(t, &lem_p) {
        let rest = crate::text::sub_chars(t, lem_p.len(), t.len());
        proof {
            reveal_strlit("LEM:");
            assert(t@.take(4) == "LEM:"@);
            assert(rest@ =~= t@.skip(4));
        }
        acc.lemma = Some(rest);
        return ;
    }
    if acc.seg_type.is_none() && (crate::text::chars_eq_ignore_case_str(t, "PREFIX")
        || crate::text::chars_eq_ignore_case_str(t, "STEM")) {
        let mut copy: Vec<char> = Vec::new();
        let c2 = concat_chars(&copy, t);
        proof {
            assert(c2@ =~= t@);
        }
        acc.seg_type = Some(c2);
        return ;
    }
    let u = crate::text::upper_chars(t);
    if crate::text::chars_eq_str(&u, "GEN") || crate::text::chars_eq_str(&u, "ACC")
        || crate::text::chars_eq_str(&u, "NOM") {
        acc.case_ = Some(u);
    } else if crate::text::chars_eq_str(&u, "DEF") || crate::text::chars_eq_str(&u, "INDEF") {
        acc.extras.push(u);
        proof {
            assert(acc.extras@.map_values(|x: Vec<char>| x@) =~= old(
                acc,
            ).extras@.map_values(|x: Vec<char>| x@).push(upper_seq(t@)));
        }
    } else if crate::text::chars_eq_str(&u, "M") || crate::text::chars_eq_str(&u, "F") {
        acc.gender = Some(u);
    } else if crate::text::chars_eq_str(&u, "SG") || crate::text::chars_eq_str(&u, "PL")
        || crate::text::chars_eq_str(&u, "DU") {
        acc.number = Some(u);
    } else if u.len() == 2 && u[0] == 'P' && '1' <= u[1] && u[1] <= '3' {
        acc.person = Some(u);
    } else if crate::text::chars_eq_str(&u, "IMPF") || crate::text::chars_eq_str(&u, "PERF")
        || crate::text::chars_eq_str(&u, "IMPV") {
        acc.tense = Some(u);
    } else if crate::text::chars_eq_str(&u, "SUBJ") || crate::text::chars_eq_str(&u, "JUS")
        || crate::text::chars_eq_str(&u, "IND") {
        acc.mood = Some(u);
    } else if crate::text::chars_eq_str(&u, "ACT") || crate::text::chars_eq_str(&u, "PASS") {
        acc.voice = Some(u);
    } else {
        let mut copy: Vec<char> = Vec::new();
        let c2 = concat_chars(&copy, t);
        proof {
            assert(c2@ =~= t@);
        }
        acc.extras.push(c2);
        proof {
            assert(acc.extras@.map_values(|x: Vec<char>| x@) =~= old(
                acc,
            ).extras@.map_values(|x: Vec<char>| x@).push(t@));
        }
    }
}

/// The gathered tag content, executably.
pub struct LegacyTags {
    pub root: Option<Vec<char>>,
    pub lemma: Option<Vec<char>>,
    pub seg_type: Option<Vec<char>>,
    pub case_: Option<Vec<char>>,
    pub gender: Option<Vec<char>>,
    pub number: Option<Vec<char>>,
    pub person: Option<Vec<char>>,
    pub tense: Option<Vec<char>>,
    pub mood: Option<Vec<char>>,
    pub voice: Option<Vec<char>>,
    pub extras: Vec<Vec<char>>,
}

pub open spec fn opt_cv(o: Option<Vec<char>>) -> Option<Seq<char>> {
    match o {
        Some(v) => Some(v@),
        None => None,
    }
}

pub open spec fn tags_of(a: LegacyTags) -> TagsV {
    TagsV {
        root: opt_cv(a.root),
        lemma: opt_cv(a.lemma),
        seg_type: opt_cv(a.seg_type),
        case_: opt_cv(a.case_),
        gender: opt_cv(a.gender),
        number: opt_cv(a.number),
        person: opt_cv(a.person),
        tense: opt_cv(a.tense),
        mood: opt_cv(a.mood),
        voice: opt_cv(a.voice),
        extras: a.extras@.map_values(|x: Vec<char>| x@),
    }
}

/// Folds a whole tag bag.
fn tags_fold_exec(parts: &Vec<Vec<char>>) -> (r: LegacyTags)
    ensures
        tags_of(r) == tags_fold(parts@.map_values(|x: Vec<char>| x@)),
{
    let ghost pviews = parts@.map_values(|x: Vec<char>| x@);
    let mut acc = LegacyTags {
        root: None,
        lemma: None,
        seg_type: None,
        case_: None,
        gender: None,
        number: None,
        person: None,
        tense: None,
        mood: None,
        voice: None,
        extras: Vec::new(),
    };
    let mut i: usize = 0;
    proof {
        assert(pviews.take(0) =~= Seq::<Seq<char>>::empty());
        assert(tags_of(acc) == empty_tags()) by {
            assert(acc.extras@.map_values(|x: Vec<char>| x@) =~= Seq::<Seq<char>>::empty());
        }
    }
    while i < parts.len()
        invariant
            i <= parts@.len(),
            pviews == parts@.map_values(|x: Vec<char>| x@),
            tags_of(acc) == tags_fold(pviews.take(i as int)),
        decreases parts@.len() - i,
    {
        proof {
            assert(pviews.take(i + 1 as int).drop_last() =~= pviews.take(i as int));
            assert(pviews.take(i + 1 as int).last() == pviews[i as int]);
        }
        tag_step_exec(&mut acc, &parts[i]);
        i = i + 1;
    }
    proof {
        assert(pviews.take(parts@.len() as int) =~= pviews);
    }
    acc
}

// ----- legacy line fields ---------------------------------------------------

pub open spec fn l_parts(line: Seq<char>) -> Seq<Seq<char>> {
    sep_split(trimmed(line), '\t')
}

pub open spec fn l_ref(line: Seq<char>) -> Seq<Seq<char>> {
    sep_split(strip_char(strip_char(l_parts(line)[0], '('), ')'), ':')
}

/// Whether a line carries a record: not blank, not a comment, at least
/// three tab-separated fields, and a coordinate reference of at least two
/// parts.
pub open spec fn legacy_line_ok(line: Seq<char>) -> bool {
    let t = trimmed(line);
    t.len() > 0 && t[0] != '#' && l_parts(line).len() >= 3 && l_ref(line).len() >= 2
}

pub open spec fn l_tagstr(line: Seq<char>) -> Seq<char> {
    if l_parts(line).len() >= 4 {
        trimmed(l_parts(line)[3])
    } else {
        Seq::empty()
    }
}

pub open spec fn l_tags(line: Seq<char>) -> TagsV {
    tags_fold(sep_split(l_tagstr(line), '|'))
}

pub open spec fn l_widx(line: Seq<char>) -> int {
    if l_ref(line).len() >= 3 {
        idx_or_zero(l_ref(line)[2])
    } else {
        0
    }
}

pub open spec fn opt_item(prefix: Seq<char>, o: Option<Seq<char>>) -> Seq<Seq<char>> {
    match o {
        Some(x) => seq![prefix + x],
        None => Seq::empty(),
    }
}

pub open spec fn join_bar(items: Seq<Seq<char>>) -> Seq<char>
    decreases items.len(),
{
    if items.len() == 0 {
        Seq::empty()
    } else if items.len() == 1 {
        items[0]
    } else {
        join_bar(items.drop_last()) + " | "@ + items.last()
    }
}

/// The feature items of a legacy record, in the fixed label order,
/// followed by the opaque extras.
pub open spec fn l_feat_items(tg: TagsV) -> Seq<Seq<char>> {
    opt_item("case:"@, tg.case_) + opt_item("gender:"@, tg.gender) + opt_item(
        "number:"@,
        tg.number,
    ) + opt_item("person:"@, tg.person) + opt_item("tense:"@, tg.tense) + opt_item(
        "mood:"@,
        tg.mood,
    ) + opt_item("voice:"@, tg.voice) + tg.extras
}

pub open spec fn l_features(line: Seq<char>) -> Option<Seq<char>> {
    let items = l_feat_items(l_tags(line));
    if items.len() == 0 {
        None
    } else {
        Some(join_bar(items))
    }
}

/// The first extra reading as a definiteness tag.
pub open spec fn first_definite(extras: Seq<Seq<char>>) -> Option<Seq<char>>
    decreases extras.len(),
{
    if extras.len() == 0 {
        None
    } else if eq_ignore_case(extras[0], "DEF"@) || eq_ignore_case(extras[0], "INDEF"@) {
        Some(extras[0])
    } else {
        first_definite(extras.skip(1))
    }
}

/// Whether a morphology entry holds exactly what one legacy line carries.
pub open spec fn legacy_entry_matches(e: MorphEntry, line: Seq<char>) -> bool {
    let tg = l_tags(line);
    &&& e.text@ == trimmed(l_parts(line)[1])
    &&& crate::storage::opt_v(e.pos) == Some(trimmed(l_parts(line)[2]))
    &&& crate::storage::opt_v(e.root) == tg.root
    &&& crate::storage::opt_v(e.lemma) == tg.lemma
    &&& crate::storage::opt_v(e.case_) == tg.case_
    &&& crate::storage::opt_v(e.gender) == tg.gender
    &&& crate::storage::opt_v(e.number) == tg.number
    &&& crate::storage::opt_v(e.definiteness) == first_definite(tg.extras)
    &&& e.determiner is None
    &&& crate::storage::opt_v(e.features) == l_features(line)
    &&& crate::storage::opt_v(e.form) == Some(trimmed(l_parts(line)[1]))
    &&& crate::storage::opt_v(e.type_) == Some(
        match tg.seg_type {
            Some(t) => t,
            None => "stem"@,
        },
    )
    &&& e.word_index == Some(l_widx(line) as usize)
}

/// Parses one line of the legacy tagged-text corpus: the coordinate and
/// the morphology entry it carries, or nothing for a blank, comment or
/// malformed line — malformed rows are skipped, not fatal.
pub fn parse_morphology_line(line: &Vec<char>) -> (r: Option<(i64, i64, MorphEntry)>)
    ensures
        r is Some <==> legacy_line_ok(line@),
        r matches Some(t) ==> t.0 as int == num_or_zero(l_ref(line@)[0]) && t.1 as int
            == num_or_zero(l_ref(line@)[1]) && legacy_entry_matches(t.2, line@),
{
    let t = crate::text::trim_chars(line);
    if t.len() == 0 {
        return None;
    }
    if t[0] == '#' {
        return None;
    }
    let parts = crate::text::split_on(&t, '\t');
    proof {
        assert(forall|j: int|
            0 <= j < parts@.len() ==> #[trigger] parts@[j]@ == l_parts(line@)[j]);
    }
    if parts.len() < 3 {
        return None;
    }
    let ref0 = strip_char_exec(&strip_char_exec(&parts[0], '('), ')');
    let rp = crate::text::split_on(&ref0, ':');
    proof {
        assert(forall|j: int| 0 <= j < rp@.len() ==> #[trigger] rp@[j]@ == l_ref(line@)[j]);
    }
    if rp.len() < 2 {
        return None;
    }
    let surah = num_or_zero_exec(&rp[0]);
    let ayah = num_or_zero_exec(&rp[1]);
    let widx: usize = if rp.len() >= 3 {
        idx_or_zero_exec(&rp[2])
    } else {
        0
    };
    let surface = crate::text::trim_chars(&parts[1]);
    let pos = crate::text::trim_chars(&parts[2]);
    let tagstr: Vec<char> = if parts.len() >= 4 {
        crate::text::trim_chars(&parts[3])
    } else {
        Vec::new()
    };
    proof {
        assert(tagstr@ == l_tagstr(line@));
    }
    let tag_parts = crate::text::split_on(&tagstr, '|');
    proof {
        assert(tag_parts@.map_values(|x: Vec<char>| x@) =~= sep_split(l_tagstr(line@), '|'));
    }
    let tg = tags_fold_exec(&tag_parts);

    // Feature string: labeled values in fixed order, then the extras.
    let mut items: Vec<Vec<char>> = Vec::new();
    push_labeled(&mut items, "case:", &tg.case_);
    push_labeled(&mut items, "gender:", &tg.gender);
    push_labeled(&mut items, "number:", &tg.number);
    push_labeled(&mut items, "person:", &tg.person);
    push_labeled(&mut items, "tense:", &tg.tense);
    push_labeled(&mut items, "mood:", &tg.mood);
    push_labeled(&mut items, "voice:", &tg.voice);
    let ghost labeled_part = items@.map_values(|x: Vec<char>| x@);
    let mut e: usize = 0;
    proof {
        assert(tags_of(tg).extras.take(0) =~= Seq::<Seq<char>>::empty());
        assert(labeled_part + tags_of(tg).extras.take(0) =~= labeled_part);
    }
    while e < tg.extras.len()
        invariant
            e <= tg.extras@.len(),
            tags_of(tg).extras.len() == tg.extras@.len(),
            forall|k: int|
                0 <= k < tg.extras@.len() ==> #[trigger] tg.extras@[k]@ == tags_of(tg).extras[k],
            items@.map_values(|x: Vec<char>| x@) == labeled_part + tags_of(tg).extras.take(
                e as int,
            ),
        decreases tg.extras@.len() - e,
    {
        proof {
            assert(tags_of(tg).extras.take(e + 1 as int) =~= tags_of(tg).extras.take(
                e as int,
            ).push(tags_of(tg).extras[e as int]));
        }
        let mut copy: Vec<char> = Vec::new();
        let c2 = concat_chars(&copy, &tg.extras[e]);
        items.push(c2);
        proof {
            assert(items@.map_values(|x: Vec<char>| x@) =~= (labeled_part + tags_of(
                tg,
            ).extras.take(e as int)).push(tags_of(tg).extras[e as int]));
            assert((labeled_part + tags_of(tg).extras.take(e as int)).push(
                tags_of(tg).extras[e as int],
            ) =~= labeled_part + tags_of(tg).extras.take(e + 1 as int));
        }
        e = e + 1;
    }
    proof {
        assert(tags_of(tg).extras.take(tg.extras@.len() as int) =~= tags_of(tg).extras);
        assert(items@.map_values(|x: Vec<char>| x@) =~= l_feat_items(tags_of(tg)));
    }
    let features: Option<String> = if items.len() == 0 {
        None
    } else {
        Some(join_bar_exec(&items))
    };

    // Definiteness: the first extra reading as a definiteness tag.
    let mut definiteness: Option<String> = None;
    let mut d: usize = 0;
    proof {
        assert(tags_of(tg).extras.skip(0) =~= tags_of(tg).extras);
    }
    while d < tg.extras.len()
        invariant
            d <= tg.extras@.len(),
            tags_of(tg).extras.len() == tg.extras@.len(),
            forall|k: int|
                0 <= k < tg.extras@.len() ==> #[trigger] tg.extras@[k]@ == tags_of(tg).extras[k],
            match definiteness {
                None => first_definite(tags_of(tg).extras) == first_definite(
                    tags_of(tg).extras.skip(d as int),
                ),
                Some(v) => first_definite(tags_of(tg).extras) == Some(v@),
            },
            definiteness is Some ==> d == tg.extras@.len(),
        decreases tg.extras@.len() - d,
    {
        proof {
            assert(tags_of(tg).extras.skip(d as int)[0] == tags_of(tg).extras[d as int]);
            assert(tags_of(tg).extras.skip(d as int).skip(1) =~= tags_of(tg).extras.skip(
                d + 1 as int,
            ));
        }
        if crate::text::chars_eq_ignore_case_str(&tg.extras[d], "DEF")
            || crate::text::chars_eq_ignore_case_str(&tg.extras[d], "INDEF") {
            definiteness = Some(string_of(&tg.extras[d]));
            d = tg.extras.len();
        } else {
            d = d + 1;
        }
    }
    proof {
        if definiteness is None {
            assert(tags_of(tg).extras.skip(tg.extras@.len() as int).len() == 0);
        }
    }

    let seg_type: String = match &tg.seg_type {
        Some(v) => string_of(v),
        None => "stem".to_owned(),
    };
    let entry = MorphEntry {
        text: string_of(&surface),
        pos: Some(string_of(&pos)),
        root: opt_string_of(&tg.root),
        form: Some(string_of(&surface)),
        lemma: opt_string_of(&tg.lemma),
        features,
        type_: Some(seg_type),
        dependency_rel: None,
        role: None,
        case_: opt_string_of(&tg.case_),
        gender: opt_string_of(&tg.gender),
        number: opt_string_of(&tg.number),
        definiteness,
        determiner: None,
        word_index: Some(widx),
    };
    Some((surah, ayah, entry))
}

/// A labeled feature item, appended when the value is present.
fn push_labeled(items: &mut Vec<Vec<char>>, label: &str, v: &Option<Vec<char>>)
    ensures
        final(items)@.map_values(|x: Vec<char>| x@) == old(items)@.map_values(
            |x: Vec<char>| x@,
        ) + opt_item(label@, opt_cv(*v)),
{
    match v {
        Some(x) => {
            let a = chars_of(label);
            let ab = concat_chars(&a, x);
            items.push(ab);
            proof {
                assert(items@.map_values(|x0: Vec<char>| x0@) =~= old(items)@.map_values(
                    |x0: Vec<char>| x0@,
                ) + opt_item(label@, opt_cv(*v)));
            }
        },
        None => {
            proof {
                assert(items@.map_values(|x0: Vec<char>| x0@) =~= old(items)@.map_values(
                    |x0: Vec<char>| x0@,
                ) + opt_item(label@, opt_cv(*v)));
            }
        },
    }
}

/// Joins feature items with bars.
fn join_bar_exec(items: &Vec<Vec<char>>) -> (r: String)
    requires
        items@.len() > 0,
    ensures
        r@ == join_bar(items@.map_values(|x: Vec<char>| x@)),
{
    let ghost iv = items@.map_values(|x: Vec<char>| x@);
    let mut acc: Vec<char> = Vec::new();
    let first = concat_chars(&acc, &items[0]);
    let mut out = first;
    proof {
        assert(out@ =~= iv[0]);
        assert(iv.take(1) =~= seq![iv[0]]);
        assert(join_bar(iv.take(1)) == iv[0]);
    }
    let mut i: usize = 1;
    while i < items.len()
        invariant
            1 <= i <= items@.len(),
            iv == items@.map_values(|x: Vec<char>| x@),
            out@ == join_bar(iv.take(i as int)),
        decreases items@.len() - i,
    {
        proof {
            assert(iv.take(i + 1 as int).drop_last() =~= iv.take(i as int));
            assert(iv.take(i + 1 as int).last() == iv[i as int]);
        }
        let bar = chars_of(" | ");
        let p1 = concat_chars(&out, &bar);
        let p2 = concat_chars(&p1, &items[i]);
        out = p2;
        i = i + 1;
    }
    proof {
        assert(iv.take(items@.len() as int) =~= iv);
    }
    string_of(&out)
}

fn opt_string_of(v: &Option<Vec<char>>) -> (r: Option<String>)
    ensures
        crate::storage::opt_v(r) == opt_cv(*v),
{
    match v {
        Some(x) => Some(string_of(x)),
        None => None,
    }
}

/// A field-for-field copy of a morphology entry.
pub fn dup_morph_entry(e: &MorphEntry) -> (r: MorphEntry)
    ensures
        r == *e,
{
    MorphEntry {
        text: e.text.clone(),
        pos: crate::model::dup_opt_string(&e.pos),
        root: crate::model::dup_opt_string(&e.root),
        form: crate::model::dup_opt_string(&e.form),
        lemma: crate::model::dup_opt_string(&e.lemma),
        features: crate::model::dup_opt_string(&e.features),
        type_: crate::model::dup_opt_string(&e.type_),
        dependency_rel: crate::model::dup_opt_string(&e.dependency_rel),
        role: crate::model::dup_opt_string(&e.role),
        case_: crate::model::dup_opt_string(&e.case_),
        gender: crate::model::dup_opt_string(&e.gender),
        number: crate::model::dup_opt_string(&e.number),
        definiteness: crate::model::dup_opt_string(&e.definiteness),
        determiner: e.determiner,
        word_index: e.word_index,
    }
}

/// The lines of the corpus that carry records, in order.
pub open spec fn ok_lines(lines: Seq<Seq<char>>) -> Seq<Seq<char>>
    decreases lines.len(),
{
    if lines.len() == 0 {
        Seq::empty()
    } else {
        let rest = ok_lines(lines.drop_last());
        if legacy_line_ok(lines.last()) {
            rest.push(lines.last())
        } else {
            rest
        }
    }
}

/// Parses a whole legacy tagged-text corpus: one entry per well-formed
/// line, keyed by its coordinate; malformed rows are skipped, not fatal.
pub fn parse_morphology_corpus(content: &str) -> (r: Vec<(i64, i64, MorphEntry)>)
    ensures
        ({
            let lines = sep_split(content@, '\n');
            let oks = ok_lines(lines);
            &&& r@.len() == oks.len()
            &&& forall|j: int|
                0 <= j < r@.len() ==> (#[trigger] r@[j]).0 as int == num_or_zero(
                    l_ref(oks[j])[0],
                ) && r@[j].1 as int == num_or_zero(l_ref(oks[j])[1]) && legacy_entry_matches(
                    r@[j].2,
                    oks[j],
                )
        }),
{
    let cv = chars_of(content);
    let lines = crate::text::split_on(&cv, '\n');
    let ghost lviews = sep_split(content@, '\n');
    proof {
        assert(forall|j: int| 0 <= j < lines@.len() ==> #[trigger] lines@[j]@ == lviews[j]);
        assert(lviews.take(0) =~= Seq::<Seq<char>>::empty());
    }
    let mut out: Vec<(i64, i64, MorphEntry)> = Vec::new();
    let mut i: usize = 0;
    while i < lines.len()
        invariant
            i <= lines@.len(),
            lines@.len() == lviews.len(),
            forall|j: int| 0 <= j < lines@.len() ==> #[trigger] lines@[j]@ == lviews[j],
            ({
                let oks = ok_lines(lviews.take(i as int));
                &&& out@.len() == oks.len()
                &&& forall|j: int|
                    0 <= j < out@.len() ==> (#[trigger] out@[j]).0 as int == num_or_zero(
                        l_ref(oks[j])[0],
                    ) && out@[j].1 as int == num_or_zero(l_ref(oks[j])[1])
                        && legacy_entry_matches(out@[j].2, oks[j])
            }),
        decreases lines@.len() - i,
    {
        proof {
            assert(lviews.take(i + 1 as int).drop_last() =~= lviews.take(i as int));
            assert(lviews.take(i + 1 as int).last() == lviews[i as int]);
        }
        match parse_morphology_line(&lines[i]) {
            Some(t) => {
                out.push(t);
            },
            None => {},
        }
        i = i + 1;
    }
    proof {
        assert(lviews.take(lines@.len() as int) =~= lviews);
    }
    out
}

/// The entries filed under one verse coordinate, in corpus order; how a
/// cached fallback corpus answers a verse lookup.
pub fn entries_for(entries: &Vec<(i64, i64, MorphEntry)>, surah: i64, ayah: i64) -> (r: Vec<
    MorphEntry,
>)
    ensures
        r@ == coord_entries(entries@, surah as int, ayah as int),
{
    let mut out: Vec<MorphEntry> = Vec::new();
    let mut i: usize = 0;
    proof {
        assert(entries@.take(0) =~= Seq::<(i64, i64, MorphEntry)>::empty());
        assert(out@ =~= coord_entries(entries@.take(0), surah as int, ayah as int));
    }
    while i < entries.len()
        invariant
            i <= entries@.len(),
            out@ == coord_entries(entries@.take(i as int), surah as int, ayah as int),
        decreases entries@.len() - i,
    {
        proof {
            assert(entries@.take(i + 1 as int).drop_last() =~= entries@.take(i as int));
            assert(entries@.take(i + 1 as int).last() == entries@[i as int]);
        }
        let t = &entries[i];
        if t.0 == surah && t.1 == ayah {
            out.push(dup_morph_entry(&t.2));
            proof {
                assert(out@ =~= out@.drop_last().push(out@.last()));
            }
        }
        i = i + 1;
    }
    proof {
        assert(entries@.take(entries@.len() as int) =~= entries@);
    }
    out
}

pub open spec fn coord_entries(
    entries: Seq<(i64, i64, MorphEntry)>,
    surah: int,
    ayah: int,
) -> Seq<MorphEntry>
    decreases entries.len(),
{
    if entries.len() == 0 {
        Seq::empty()
    } else {
        let rest = coord_entries(entries.drop_last(), surah, ayah);
        if entries.last().0 as int == surah && entries.last().1 as int == ayah {
            rest.push(entries.last().2)
        } else {
            rest
        }
    }
}

// ----- the tabular export ---------------------------------------------------

/// The trimmed text of a column, empty when the row is short.
pub open spec fn m_col(rec: Seq<Seq<char>>, i: int) -> Seq<char> {
    if 0 <= i < rec.len() {
        trimmed(rec[i])
    } else {
        Seq::empty()
    }
}

/// A column as written, empty when the row is short.
pub open spec fn m_raw(rec: Seq<Seq<char>>, i: int) -> Seq<char> {
    if 0 <= i < rec.len() {
        rec[i]
    } else {
        Seq::empty()
    }
}

/// The surface a tabular row shows: the segmented form, else the raw
/// word.
pub open spec fn m_base(rec: Seq<Seq<char>>) -> Seq<char> {
    if m_col(rec, 7).len() > 0 {
        m_col(rec, 7)
    } else {
        m_col(rec, 5)
    }
}

/// Whether the row carries a determiner tag.
pub open spec fn m_determiner(rec: Seq<Seq<char>>) -> bool {
    eq_ignore_case(m_col(rec, 8), "DET"@) || eq_ignore_case(m_col(rec, 9), "DET"@)
}

/// The orthographic normalization the search index expects for stems: a
/// prefix row keeps its surface; a stem loses one leading
/// definite-article sequence when a determiner tag is set, else one
/// leading glottal-stop letter.
pub open spec fn m_norm(rec: Seq<Seq<char>>) -> Seq<char> {
    if eq_ignore_case(m_col(rec, 9), "Prefix"@) {
        m_base(rec)
    } else {
        let t = m_base(rec);
        if m_determiner(rec) && t.len() >= 2 && t.take(2) == "\u{627}\u{644}"@ {
            t.skip(2)
        } else if t.len() >= 1 && t[0] == '\u{627}' {
            t.skip(1)
        } else {
            t
        }
    }
}

/// The labeled feature items of a tabular row, in the fixed order.
pub open spec fn m_feat_items(rec: Seq<Seq<char>>) -> Seq<Seq<char>> {
    nz_item("type:"@, m_col(rec, 9)) + nz_item("punct:"@, m_col(rec, 10)) + nz_item(
        "invar:"@,
        m_col(rec, 11),
    ) + nz_item("role:"@, m_col(rec, 12)) + nz_item("poss:"@, m_col(rec, 13)) + nz_item(
        "case:"@,
        m_col(rec, 14),
    ) + nz_item("case_marker:"@, m_col(rec, 15)) + nz_item("phrase:"@, m_col(rec, 16)) + nz_item(
        "phrase_fn:"@,
        m_col(rec, 17),
    ) + nz_item("notes:"@, m_col(rec, 18))
}

pub open spec fn nz_item(prefix: Seq<char>, v: Seq<char>) -> Seq<Seq<char>> {
    if v.len() > 0 {
        seq![prefix + v]
    } else {
        Seq::empty()
    }
}

pub open spec fn nz_opt(v: Seq<char>) -> Option<Seq<char>> {
    if v.len() > 0 {
        Some(v)
    } else {
        None
    }
}

/// Whether a morphology entry holds exactly what one tabular row carries.
pub open spec fn masaq_entry_matches(e: MorphEntry, rec: Seq<Seq<char>>) -> bool {
    &&& e.text@ == m_norm(rec)
    &&& crate::storage::opt_v(e.lemma) == nz_opt(m_col(rec, 6))
    &&& crate::storage::opt_v(e.pos) == nz_opt(m_col(rec, 8))
    &&& crate::storage::opt_v(e.form) == Some(m_norm(rec))
    &&& e.word_index == Some(idx_or_zero(m_raw(rec, 3)) as usize)
    &&& crate::storage::opt_v(e.features) == (if m_feat_items(rec).len() == 0 {
        None::<Seq<char>>
    } else {
        Some(join_bar(m_feat_items(rec)))
    })
    &&& crate::storage::opt_v(e.type_) == nz_opt(m_col(rec, 9))
    &&& crate::storage::opt_v(e.role) == nz_opt(m_col(rec, 12))
    &&& crate::storage::opt_v(e.case_) == nz_opt(m_col(rec, 14))
    &&& e.gender is None
    &&& e.number is None
    &&& e.definiteness is None
    &&& e.determiner == Some(m_determiner(rec))
    &&& e.dependency_rel is None
}

fn col_chars(rec: &Vec<String>, i: usize) -> (r: Vec<char>)
    ensures
        r@ == m_col(rec@.map_values(|s: String| s@), i as int),
{
    if i < rec.len() {
        crate::text::trim_chars(&chars_of(rec[i].as_str()))
    } else {
        Vec::new()
    }
}

fn raw_chars(rec: &Vec<String>, i: usize) -> (r: Vec<char>)
    ensures
        r@ == m_raw(rec@.map_values(|s: String| s@), i as int),
{
    if i < rec.len() {
        chars_of(rec[i].as_str())
    } else {
        Vec::new()
    }
}

fn nz_string(v: &Vec<char>) -> (r: Option<String>)
    ensures
        crate::storage::opt_v(r) == nz_opt(v@),
{
    if v.len() > 0 {
        Some(string_of(v))
    } else {
        None
    }
}

/// Converts one tabular row into the coordinate and morphology entry it
/// carries.
pub fn parse_masaq_record(rec: &Vec<String>) -> (r: (i64, i64, MorphEntry))
    ensures
        ({
            let rv = rec@.map_values(|s: String| s@);
            &&& r.0 as int == num_or_zero(m_raw(rv, 1))
            &&& r.1 as int == num_or_zero(m_raw(rv, 2))
            &&& masaq_entry_matches(r.2, rv)
        }),
{
    let ghost rv = rec@.map_values(|s: String| s@);
    let surah = num_or_zero_exec(&raw_chars(rec, 1));
    let ayah = num_or_zero_exec(&raw_chars(rec, 2));
    let widx = idx_or_zero_exec(&raw_chars(rec, 3));
    let word = col_chars(rec, 5);
    let lemma = col_chars(rec, 6);
    let segmented = col_chars(rec, 7);
    let morph_tag = col_chars(rec, 8);
    let morph_type = col_chars(rec, 9);

    let determiner = crate::text::chars_eq_ignore_case_str(&morph_tag, "DET")
        || crate::text::chars_eq_ignore_case_str(&morph_type, "DET");
    let base: Vec<char> = if segmented.len() > 0 {
        segmented
    } else {
        let mut c: Vec<char> = Vec::new();
        let c2 = concat_chars(&c, &word);
        proof {
            assert(c2@ =~= m_col(rv, 5));
        }
        c2
    };
    proof {
        assert(base@ == m_base(rv));
    }
    let norm: Vec<char> = if crate::text::chars_eq_ignore_case_str(&morph_type, "Prefix") {
        base
    } else {
        if determiner && base.len() >= 2 && base[0] == '\u{627}' && base[1] == '\u{644}' {
            proof {
                reveal_strlit("\u{627}\u{644}");
                assert(base@.take(2) =~= "\u{627}\u{644}"@);
            }
            let r = crate::text::sub_chars(&base, 2, base.len());
            proof {
                assert(r@ =~= base@.skip(2));
            }
            r
        } else if base.len() >= 1 && base[0] == '\u{627}' {
            proof {
                reveal_strlit("\u{627}\u{644}");
                if m_determiner(rv) && m_base(rv).len() >= 2 && m_base(rv).take(2)
                    == "\u{627}\u{644}"@ {
                    assert(m_base(rv).take(2)[0] == "\u{627}\u{644}"@[0]);
                    assert(m_base(rv).take(2)[1] == "\u{627}\u{644}"@[1]);
                    assert(m_base(rv)[0] == '\u{627}' && m_base(rv)[1] == '\u{644}');
                    assert(false);
                }
            }
            let r = crate::text::sub_chars(&base, 1, base.len());
            proof {
                assert(r@ =~= base@.skip(1));
            }
            r
        } else {
            proof {
                reveal_strlit("\u{627}\u{644}");
                if m_determiner(rv) && m_base(rv).len() >= 2 && m_base(rv).take(2)
                    == "\u{627}\u{644}"@ {
                    assert(m_base(rv).take(2)[0] == "\u{627}\u{644}"@[0]);
                    assert(m_base(rv).take(2)[1] == "\u{627}\u{644}"@[1]);
                    assert(m_base(rv)[0] == '\u{627}' && m_base(rv)[1] == '\u{644}');
                    assert(false);
                }
            }
            base
        }
    };
    proof {
        assert(norm@ == m_norm(rv));
    }

    let mut items: Vec<Vec<char>> = Vec::new();
    push_nz(&mut items, "type:", &col_chars(rec, 9));
    push_nz(&mut items, "punct:", &col_chars(rec, 10));
    push_nz(&mut items, "invar:", &col_chars(rec, 11));
    push_nz(&mut items, "role:", &col_chars(rec, 12));
    push_nz(&mut items, "poss:", &col_chars(rec, 13));
    push_nz(&mut items, "case:", &col_chars(rec, 14));
    push_nz(&mut items, "case_marker:", &col_chars(rec, 15));
    push_nz(&mut items, "phrase:", &col_chars(rec, 16));
    push_nz(&mut items, "phrase_fn:", &col_chars(rec, 17));
    push_nz(&mut items, "notes:", &col_chars(rec, 18));
    proof {
        assert(items@.map_values(|x: Vec<char>| x@) =~= m_feat_items(rv));
    }
    let features: Option<String> = if items.len() == 0 {
        None
    } else {
        Some(join_bar_exec(&items))
    };
    let entry = MorphEntry {
        text: string_of(&norm),
        pos: nz_string(&col_chars(rec, 8)),
        root: None,
        form: Some(string_of(&norm)),
        lemma: nz_string(&lemma),
        features,
        type_: nz_string(&morph_type),
        dependency_rel: None,
        role: nz_string(&col_chars(rec, 12)),
        case_: nz_string(&col_chars(rec, 14)),
        gender: None,
        number: None,
        definiteness: None,
        determiner: Some(determiner),
        word_index: Some(widx),
    };
    (surah, ayah, entry)
}

/// A labeled feature item, appended when the value is nonempty.
fn push_nz(items: &mut Vec<Vec<char>>, label: &str, v: &Vec<char>)
    ensures
        final(items)@.map_values(|x: Vec<char>| x@) == old(items)@.map_values(
            |x: Vec<char>| x@,
        ) + nz_item(label@, v@),
{
    if v.len() > 0 {
        let a = chars_of(label);
        let ab = concat_chars(&a, v);
        items.push(ab);
        proof {
            assert(items@.map_values(|x0: Vec<char>| x0@) =~= old(items)@.map_values(
                |x0: Vec<char>| x0@,
            ) + nz_item(label@, v@));
        }
    } else {
        proof {
            assert(items@.map_values(|x0: Vec<char>| x0@) =~= old(items)@.map_values(
                |x0: Vec<char>| x0@,
            ) + nz_item(label@, v@));
        }
    }
}

/// What the tabular corpus reader yields for given text: the records of
/// the comma-separated rows after the header, a function of the text
/// alone.
pub uninterp spec fn csv_records_of(s: Seq<char>) -> Seq<Seq<Seq<char>>>;

/// Relies on csv's `Reader`: splits comma-separated text into records of
/// fields, reading the first row as headers and allowing ragged rows;
/// rows that fail to parse are skipped.
#[verifier::external_body]
fn csv_records(text: &str) -> (r: Vec<Vec<String>>)
    ensures
        r.deep_view() == csv_records_of(text@),
{
    let mut rdr = csv::ReaderBuilder::new().has_headers(true).flexible(true).from_reader(
        text.as_bytes(),
    );
    let mut out: Vec<Vec<String>> = Vec::new();
    for rec in rdr.records() {
        if let Ok(rec) = rec {
            out.push(rec.iter().map(|f| f.to_string()).collect());
        }
    }
    out
}

/// Parses a whole tabular export: one entry per record, keyed by its
/// coordinate.
pub fn parse_masaq_records(records: &Vec<Vec<String>>) -> (r: Vec<(i64, i64, MorphEntry)>)
    ensures
        r@.len() == records@.len(),
        forall|j: int|
            0 <= j < r@.len() ==> ({
                let rv = records@[j]@.map_values(|s: String| s@);
                &&& (#[trigger] r@[j]).0 as int == num_or_zero(m_raw(rv, 1))
                &&& r@[j].1 as int == num_or_zero(m_raw(rv, 2))
                &&& masaq_entry_matches(r@[j].2, rv)
            }),
{
    let mut out: Vec<(i64, i64, MorphEntry)> = Vec::new();
    let mut i: usize = 0;
    while i < records.len()
        invariant
            i <= records@.len(),
            out@.len() == i,
            forall|j: int|
                0 <= j < i ==> ({
                    let rv = records@[j]@.map_values(|s: String| s@);
                    &&& (#[trigger] out@[j]).0 as int == num_or_zero(m_raw(rv, 1))
                    &&& out@[j].1 as int == num_or_zero(m_raw(rv, 2))
                    &&& masaq_entry_matches(out@[j].2, rv)
                }),
        decreases records@.len() - i,
    {
        out.push(parse_masaq_record(&records[i]));
        i = i + 1;
    }
    out
}

// ----- the primary line-delimited format ------------------------------------

/// One raw segment of a primary-format record; every attribute optional.
pub struct CorpusSegment {
    pub id: Option<String>,
    pub type_: Option<String>,
    pub form: Option<String>,
    pub root: Option<String>,
    pub lemma: Option<String>,
    pub pattern: Option<String>,
    pub pos: Option<String>,
    pub verb_form: Option<String>,
    pub voice: Option<String>,
    pub mood: Option<String>,
    pub aspect: Option<String>,
    pub person: Option<String>,
    pub number: Option<String>,
    pub gender: Option<String>,
    pub case_: Option<String>,
    pub dependency_rel: Option<String>,
    pub role: Option<String>,
    pub derived_noun_type: Option<String>,
    pub state: Option<String>,
}

/// One raw token of a primary-format record.
pub struct CorpusToken {
    pub id: Option<String>,
    pub form: String,
    pub segments: Option<Vec<CorpusSegment>>,
}

/// One primary-format record: a verse with its tokens.
pub struct CorpusVerse {
    pub surah_number: i64,
    pub ayah: i64,
    pub text: Option<String>,
    pub tokens: Vec<CorpusToken>,
}

/// The synthesized id of a segment whose source omits one, derived from
/// the verse coordinate, token position and segment position.
pub open spec fn synth_seg_id(s: int, a: int, t: int, g: int) -> Seq<char> {
    "seg-"@ + crate::num::dec_rep_i64(s) + "-"@ + crate::num::dec_rep_i64(a) + "-"@
        + crate::num::dec_rep_i64(t) + "-"@ + crate::num::dec_rep_i64(g)
}

/// The canonical verse text of a record: the given text when nonempty,
/// else the token surfaces joined with single spaces.
pub open spec fn prim_text(v: CorpusVerse) -> Seq<char> {
    match v.text {
        Some(t) => if t@.len() > 0 {
            t@
        } else {
            crate::tree::join_sp(v.tokens@.map_values(|t0: CorpusToken| t0.form@))
        },
        None => crate::tree::join_sp(v.tokens@.map_values(|t0: CorpusToken| t0.form@)),
    }
}

pub open spec fn prim_segs(v: CorpusVerse, t: int) -> Seq<CorpusSegment> {
    match v.tokens@[t].segments {
        Some(gs) => gs@,
        None => Seq::empty(),
    }
}

/// Whether a canonical segment holds what one raw segment carries, with
/// the id, type and form defaults applied.
pub open spec fn prim_seg_matches(g: Segment, v: CorpusVerse, t: int, gi: int) -> bool {
    let raw = prim_segs(v, t)[gi];
    &&& g.id@ == (match raw.id {
        Some(x) => x@,
        None => synth_seg_id(v.surah_number as int, v.ayah as int, t, gi),
    })
    &&& g.type_@ == (match raw.type_ {
        Some(x) => x@,
        None => Seq::<char>::empty(),
    })
    &&& g.form@ == (match raw.form {
        Some(x) => x@,
        None => v.tokens@[t].form@,
    })
    &&& crate::storage::opt_v(g.root) == crate::storage::opt_v(raw.root)
    &&& crate::storage::opt_v(g.lemma) == crate::storage::opt_v(raw.lemma)
    &&& crate::storage::opt_v(g.pattern) == crate::storage::opt_v(raw.pattern)
    &&& crate::storage::opt_v(g.pos) == crate::storage::opt_v(raw.pos)
    &&& crate::storage::opt_v(g.verb_form) == crate::storage::opt_v(raw.verb_form)
    &&& crate::storage::opt_v(g.voice) == crate::storage::opt_v(raw.voice)
    &&& crate::storage::opt_v(g.mood) == crate::storage::opt_v(raw.mood)
    &&& g.tense is None
    &&& crate::storage::opt_v(g.aspect) == crate::storage::opt_v(raw.aspect)
    &&& crate::storage::opt_v(g.person) == crate::storage::opt_v(raw.person)
    &&& crate::storage::opt_v(g.number) == crate::storage::opt_v(raw.number)
    &&& crate::storage::opt_v(g.gender) == crate::storage::opt_v(raw.gender)
    &&& crate::storage::opt_v(g.case_) == crate::storage::opt_v(raw.case_)
    &&& crate::storage::opt_v(g.dependency_rel) == crate::storage::opt_v(raw.dependency_rel)
    &&& crate::storage::opt_v(g.role) == crate::storage::opt_v(raw.role)
    &&& crate::storage::opt_v(g.derived_noun_type) == crate::storage::opt_v(
        raw.derived_noun_type,
    )
    &&& crate::storage::opt_v(g.state) == crate::storage::opt_v(raw.state)
}

/// Whether one normalized record holds what the raw token carries.
pub open spec fn prim_doc_matches(d: SegmentView, v: CorpusVerse, t: int) -> bool {
    &&& d.id@ == (match v.tokens@[t].id {
        Some(x) => x@,
        None => crate::model::token_key(v.surah_number as int, v.ayah as int, t),
    })
    &&& d.verse_ref@ == crate::model::verse_key(v.surah_number as int, v.ayah as int)
    &&& d.token_index == t
    &&& d.text@ == v.tokens@[t].form@
    &&& d.segments@.len() == prim_segs(v, t).len()
    &&& (forall|gi: int|
        0 <= gi < d.segments@.len() ==> prim_seg_matches(#[trigger] d.segments@[gi], v, t, gi))
    &&& d.annotations@.len() == 0
}

/// Normalizes one primary-format record into canonical token records and
/// the verse's canonical text; missing ids are synthesized from the
/// coordinate so re-ingestion is idempotent.
pub fn normalize_verse(v: &CorpusVerse) -> (r: (Vec<SegmentView>, String))
    requires
        v.tokens@.len() <= i64::MAX,
        forall|t: int|
            0 <= t < v.tokens@.len() ==> prim_segs(*v, t).len() <= i64::MAX,
    ensures
        r.0@.len() == v.tokens@.len(),
        forall|t: int| 0 <= t < r.0@.len() ==> prim_doc_matches(#[trigger] r.0@[t], *v, t),
        r.1@ == prim_text(*v),
{
    // The canonical verse text.
    let joined: String = {
        let ghost fviews = v.tokens@.map_values(|t0: CorpusToken| t0.form@);
        let mut acc: Vec<char> = Vec::new();
        let mut t: usize = 0;
        proof {
            assert(fviews.take(0) =~= Seq::<Seq<char>>::empty());
        }
        while t < v.tokens.len()
            invariant
                t <= v.tokens@.len(),
                fviews == v.tokens@.map_values(|t0: CorpusToken| t0.form@),
                acc@ == crate::tree::join_sp(fviews.take(t as int)),
            decreases v.tokens@.len() - t,
        {
            proof {
                assert(fviews.take(t + 1 as int).drop_last() =~= fviews.take(t as int));
                assert(fviews.take(t + 1 as int).last() == fviews[t as int]);
            }
            let fv = chars_of(v.tokens[t].form.as_str());
            if t == 0 {
                let a = concat_chars(&acc, &fv);
                acc = a;
                proof {
                    assert(fviews.take(1) =~= seq![fviews[0]]);
                    assert(acc@ =~= fviews[0]);
                }
            } else {
                let sp = chars_of(" ");
                let a1 = concat_chars(&acc, &sp);
                let a2 = concat_chars(&a1, &fv);
                acc = a2;
            }
            t = t + 1;
        }
        proof {
            assert(fviews.take(v.tokens@.len() as int) =~= fviews);
        }
        string_of(&acc)
    };
    let verse_text: String = match &v.text {
        Some(x) => {
            if x.as_str().is_empty() {
                joined
            } else {
                x.clone()
            }
        },
        None => joined,
    };

    let mut docs: Vec<SegmentView> = Vec::new();
    let mut t: usize = 0;
    while t < v.tokens.len()
        invariant
            t <= v.tokens@.len(),
            v.tokens@.len() <= i64::MAX,
            forall|t0: int|
                0 <= t0 < v.tokens@.len() ==> prim_segs(*v, t0).len() <= i64::MAX,
            docs@.len() == t,
            forall|t0: int| 0 <= t0 < t ==> prim_doc_matches(#[trigger] docs@[t0], *v, t0),
        decreases v.tokens@.len() - t,
    {
        let tok = &v.tokens[t];
        let token_id: String = match &tok.id {
            Some(x) => x.clone(),
            None => crate::model::token_uid(v.surah_number, v.ayah, t),
        };
        let mut segs: Vec<Segment> = Vec::new();
        let raw_segs: &Vec<CorpusSegment> = match &tok.segments {
            Some(gs) => gs,
            None => {
                let d = SegmentView {
                    id: token_id,
                    verse_ref: crate::model::interp_key(v.surah_number, v.ayah),
                    token_index: t,
                    text: tok.form.clone(),
                    segments: segs,
                    annotations: Vec::new(),
                };
                docs.push(d);
                t = t + 1;
                continue ;
            },
        };
        proof {
            assert(raw_segs@ == prim_segs(*v, t as int));
            assert(prim_segs(*v, t as int).len() <= i64::MAX);
        }
        let mut g: usize = 0;
        while g < raw_segs.len()
            invariant
                g <= raw_segs@.len(),
                raw_segs@ == prim_segs(*v, t as int),
                t < v.tokens@.len(),
                v.tokens@.len() <= i64::MAX,
                tok == &v.tokens@[t as int],
                raw_segs@.len() <= i64::MAX,
                segs@.len() == g,
                forall|g0: int|
                    0 <= g0 < g ==> prim_seg_matches(#[trigger] segs@[g0], *v, t as int, g0),
            decreases raw_segs@.len() - g,
        {
            let raw = &raw_segs[g];
            let gid: String = match &raw.id {
                Some(x) => x.clone(),
                None => synth_seg_id_exec(v.surah_number, v.ayah, t, g),
            };
            let gtype: String = match &raw.type_ {
                Some(x) => x.clone(),
                None => String::new(),
            };
            let gform: String = match &raw.form {
                Some(x) => x.clone(),
                None => tok.form.clone(),
            };
            segs.push(
                Segment {
                    id: gid,
                    type_: gtype,
                    form: gform,
                    root: crate::model::dup_opt_string(&raw.root),
                    lemma: crate::model::dup_opt_string(&raw.lemma),
                    pattern: crate::model::dup_opt_string(&raw.pattern),
                    pos: crate::model::dup_opt_string(&raw.pos),
                    verb_form: crate::model::dup_opt_string(&raw.verb_form),
                    voice: crate::model::dup_opt_string(&raw.voice),
                    mood: crate::model::dup_opt_string(&raw.mood),
                    tense: None,
                    aspect: crate::model::dup_opt_string(&raw.aspect),
                    person: crate::model::dup_opt_string(&raw.person),
                    number: crate::model::dup_opt_string(&raw.number),
                    gender: crate::model::dup_opt_string(&raw.gender),
                    case_: crate::model::dup_opt_string(&raw.case_),
                    dependency_rel: crate::model::dup_opt_string(&raw.dependency_rel),
                    role: crate::model::dup_opt_string(&raw.role),
                    derived_noun_type: crate::model::dup_opt_string(&raw.derived_noun_type),
                    state: crate::model::dup_opt_string(&raw.state),
                },
            );
            g = g + 1;
        }
        let d = SegmentView {
            id: token_id,
            verse_ref: crate::model::interp_key(v.surah_number, v.ayah),
            token_index: t,
            text: tok.form.clone(),
            segments: segs,
            annotations: Vec::new(),
        };
        docs.push(d);
        t = t + 1;
    }
    (docs, verse_text)
}

/// Renders a synthesized segment id.
fn synth_seg_id_exec(s: i64, a: i64, t: usize, g: usize) -> (r: String)
    requires
        t <= i64::MAX,
        g <= i64::MAX,
    ensures
        r@ == synth_seg_id(s as int, a as int, t as int, g as int),
{
    let p0 = chars_of("seg-");
    let dash = chars_of("-");
    let c1 = concat_chars(&p0, &crate::num::i64_chars(s));
    let c2 = concat_chars(&c1, &dash);
    let c3 = concat_chars(&c2, &crate::num::i64_chars(a));
    let c4 = concat_chars(&c3, &dash);
    let c5 = concat_chars(&c4, &crate::num::i64_chars(t as i64));
    let c6 = concat_chars(&c5, &dash);
    let c7 = concat_chars(&c6, &crate::num::i64_chars(g as i64));
    string_of(&c7)
}

/// Parses a whole tabular export from its text, through the reader.
pub fn parse_masaq_corpus(text: &str) -> (r: Vec<(i64, i64, MorphEntry)>)
    ensures
        r@.len() == csv_records_of(text@).len(),
        forall|j: int|
            0 <= j < r@.len() ==> ({
                let rv = csv_records_of(text@)[j];
                &&& (#[trigger] r@[j]).0 as int == num_or_zero(m_raw(rv, 1))
                &&& r@[j].1 as int == num_or_zero(m_raw(rv, 2))
                &&& masaq_entry_matches(r@[j].2, rv)
            }),
{
    let records = csv_records(text);
    proof {
        assert(records.deep_view().len() == records@.len());
        assert forall|j: int|
            0 <= j < records@.len() implies (#[trigger] records@[j])@.map_values(|s: String| s@)
            == csv_records_of(text@)[j] by {
            assert(records.deep_view()[j] =~= records@[j]@.map_values(|s: String| s@));
        }
    }
    parse_masaq_records(&records)
}

} // verus!
