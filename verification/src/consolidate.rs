//! The analysis consolidator: merges morphology segments, dependency
//! edges and the verse's own raw tokens into one flat, deduplicated,
//! richly tagged token list, and checks strict positional coverage for
//! the deep inspection view.

use vstd::prelude::*;
use crate::model::SurahInfo;
use crate::text::{chars_of, concat_chars, has_space, lower_seq, split_words, string_of, ws_words};

verus! {

// ----- input shapes -------------------------------------------------------

/// One morphology segment as served for display.
pub struct MorphEntry {
    pub text: String,
    pub pos: Option<String>,
    pub root: Option<String>,
    pub form: Option<String>,
    pub lemma: Option<String>,
    pub features: Option<String>,
    pub type_: Option<String>,
    pub dependency_rel: Option<String>,
    pub role: Option<String>,
    pub case_: Option<String>,
    pub gender: Option<String>,
    pub number: Option<String>,
    pub definiteness: Option<String>,
    pub determiner: Option<bool>,
    pub word_index: Option<usize>,
}

/// One dependency edge as served for display.
pub struct DependencyEntry {
    pub rel_label: Option<String>,
    pub word: Option<String>,
    pub pos: Option<String>,
}

/// One sub-segment of a raw verse token.
pub struct TokenSegment {
    pub root: Option<String>,
    pub pos: Option<String>,
}

/// One raw token of a verse.
pub struct VerseTokenInput {
    pub text: Option<String>,
    pub form: Option<String>,
    pub segments: Vec<TokenSegment>,
}

/// A verse as handed to the consolidator.
pub struct VerseInput {
    pub surah: SurahInfo,
    pub ayah: i64,
    pub text: String,
    pub tokens: Vec<VerseTokenInput>,
}

/// One consolidated analysis token.
pub struct AnalysisToken {
    pub text: String,
    pub root: Option<String>,
    pub pos: Option<String>,
    pub form: Option<String>,
    pub lemma: Option<String>,
    pub features: Option<String>,
    pub role: Option<String>,
    pub case_: Option<String>,
    pub gender: Option<String>,
    pub number: Option<String>,
    pub definiteness: Option<String>,
    pub determiner: Option<bool>,
}

/// An analysis token by value.
pub ghost struct ATv {
    pub text: Seq<char>,
    pub root: Option<Seq<char>>,
    pub pos: Option<Seq<char>>,
    pub form: Option<Seq<char>>,
    pub lemma: Option<Seq<char>>,
    pub features: Option<Seq<char>>,
    pub role: Option<Seq<char>>,
    pub case_: Option<Seq<char>>,
    pub gender: Option<Seq<char>>,
    pub number: Option<Seq<char>>,
    pub definiteness: Option<Seq<char>>,
    pub determiner: Option<bool>,
}

pub open spec fn at_v(a: AnalysisToken) -> ATv {
    ATv {
        text: a.text@,
        root: crate::storage::opt_v(a.root),
        pos: crate::storage::opt_v(a.pos),
        form: crate::storage::opt_v(a.form),
        lemma: crate::storage::opt_v(a.lemma),
        features: crate::storage::opt_v(a.features),
        role: crate::storage::opt_v(a.role),
        case_: crate::storage::opt_v(a.case_),
        gender: crate::storage::opt_v(a.gender),
        number: crate::storage::opt_v(a.number),
        definiteness: crate::storage::opt_v(a.definiteness),
        determiner: a.determiner,
    }
}

pub open spec fn empty_at(text: Seq<char>) -> ATv {
    ATv {
        text,
        root: None,
        pos: None,
        form: None,
        lemma: None,
        features: None,
        role: None,
        case_: None,
        gender: None,
        number: None,
        definiteness: None,
        determiner: None,
    }
}

fn bare_token(text: String) -> (r: AnalysisToken)
    ensures
        at_v(r) == empty_at(text@),
{
    AnalysisToken {
        text,
        root: None,
        pos: None,
        form: None,
        lemma: None,
        features: None,
        role: None,
        case_: None,
        gender: None,
        number: None,
        definiteness: None,
        determiner: None,
    }
}

// ----- consolidation ------------------------------------------------------

/// Merging a later token into an earlier one with the same key: the first
/// nonempty value of every attribute wins.
pub open spec fn merge_at(a: ATv, b: ATv) -> ATv {
    ATv {
        text: a.text,
        root: if a.root is None {
            b.root
        } else {
            a.root
        },
        pos: if a.pos is None {
            b.pos
        } else {
            a.pos
        },
        form: if a.form is None {
            b.form
        } else {
            a.form
        },
        lemma: if a.lemma is None {
            b.lemma
        } else {
            a.lemma
        },
        features: if a.features is None {
            b.features
        } else {
            a.features
        },
        role: if a.role is None {
            b.role
        } else {
            a.role
        },
        case_: if a.case_ is None {
            b.case_
        } else {
            a.case_
        },
        gender: if a.gender is None {
            b.gender
        } else {
            a.gender
        },
        number: if a.number is None {
            b.number
        } else {
            a.number
        },
        definiteness: if a.definiteness is None {
            b.definiteness
        } else {
            a.definiteness
        },
        determiner: if a.determiner is None {
            b.determiner
        } else {
            a.determiner
        },
    }
}

/// First position in the accumulator whose key (the ASCII-lowercased
/// display text) equals `k`, or `-1`.
pub open spec fn cons_idx(acc: Seq<ATv>, k: Seq<char>) -> int
    decreases acc.len(),
{
    if acc.len() == 0 {
        -1
    } else if lower_seq(acc[0].text) == k {
        0
    } else {
        let r = cons_idx(acc.skip(1), k);
        if r < 0 {
            -1
        } else {
            1 + r
        }
    }
}

/// One consolidation step: merge into the first token with the same key,
/// or append.
pub open spec fn cons_step(acc: Seq<ATv>, t: ATv) -> Seq<ATv> {
    let i = cons_idx(acc, lower_seq(t.text));
    if i >= 0 {
        acc.update(i, merge_at(acc[i], t))
    } else {
        acc.push(t)
    }
}

/// Consolidation of a whole list, keyed by lowercased display text; for
/// duplicate keys the first token keeps its place and its nonempty
/// attributes, and absent attributes fill in from later duplicates.
pub open spec fn consolidated(ts: Seq<ATv>) -> Seq<ATv>
    decreases ts.len(),
{
    if ts.len() == 0 {
        Seq::empty()
    } else {
        cons_step(consolidated(ts.drop_last()), ts.last())
    }
}

proof fn lemma_cons_idx_props(acc: Seq<ATv>, k: Seq<char>)
    ensures
        cons_idx(acc, k) == -1 ==> forall|j: int|
            0 <= j < acc.len() ==> lower_seq((#[trigger] acc[j]).text) != k,
        cons_idx(acc, k) >= 0 ==> 0 <= cons_idx(acc, k) < acc.len() && lower_seq(
            acc[cons_idx(acc, k)].text,
        ) == k,
    decreases acc.len(),
{
    if acc.len() > 0 && lower_seq(acc[0].text) != k {
        lemma_cons_idx_props(acc.skip(1), k);
        let r = cons_idx(acc.skip(1), k);
        if r == -1 {
            assert forall|j: int| 0 <= j < acc.len() implies lower_seq((#[trigger] acc[j]).text)
                != k by {
                if j > 0 {
                    assert(acc[j] == acc.skip(1)[j - 1]);
                }
            }
        } else {
            assert(acc[1 + r] == acc.skip(1)[r]);
        }
    }
}

/// Merges a later token's attributes into an earlier exec token.
fn merge_into(a: &mut AnalysisToken, b: &AnalysisToken)
    ensures
        at_v(*final(a)) == merge_at(at_v(*old(a)), at_v(*b)),
{
    if a.root.is_none() {
        a.root = crate::model::dup_opt_string(&b.root);
    }
    if a.pos.is_none() {
        a.pos = crate::model::dup_opt_string(&b.pos);
    }
    if a.form.is_none() {
        a.form = crate::model::dup_opt_string(&b.form);
    }
    if a.lemma.is_none() {
        a.lemma = crate::model::dup_opt_string(&b.lemma);
    }
    if a.features.is_none() {
        a.features = crate::model::dup_opt_string(&b.features);
    }
    if a.role.is_none() {
        a.role = crate::model::dup_opt_string(&b.role);
    }
    if a.case_.is_none() {
        a.case_ = crate::model::dup_opt_string(&b.case_);
    }
    if a.gender.is_none() {
        a.gender = crate::model::dup_opt_string(&b.gender);
    }
    if a.number.is_none() {
        a.number = crate::model::dup_opt_string(&b.number);
    }
    if a.definiteness.is_none() {
        a.definiteness = crate::model::dup_opt_string(&b.definiteness);
    }
    if a.determiner.is_none() {
        a.determiner = b.determiner;
    }
}

fn dup_analysis_token(a: &AnalysisToken) -> (r: AnalysisToken)
    ensures
        at_v(r) == at_v(*a),
{
    AnalysisToken {
        text: a.text.clone(),
        root: crate::model::dup_opt_string(&a.root),
        pos: crate::model::dup_opt_string(&a.pos),
        form: crate::model::dup_opt_string(&a.form),
        lemma: crate::model::dup_opt_string(&a.lemma),
        features: crate::model::dup_opt_string(&a.features),
        role: crate::model::dup_opt_string(&a.role),
        case_: crate::model::dup_opt_string(&a.case_),
        gender: crate::model::dup_opt_string(&a.gender),
        number: crate::model::dup_opt_string(&a.number),
        definiteness: crate::model::dup_opt_string(&a.definiteness),
        determiner: a.determiner,
    }
}

pub open spec fn at_views(ts: Seq<AnalysisToken>) -> Seq<ATv> {
    ts.map_values(|t: AnalysisToken| at_v(t))
}

/// Consolidates tokens by lowercased display text: for duplicate keys the
/// first occurrence keeps its place, and each still-absent attribute takes
/// the first nonempty value among the later duplicates.
pub fn consolidate_tokens(tokens: Vec<AnalysisToken>) -> (r: Vec<AnalysisToken>)
    ensures
        at_views(r@) == consolidated(at_views(tokens@)),
{
    let ghost tvs = at_views(tokens@);
    let mut acc: Vec<AnalysisToken> = Vec::new();
    let mut i: usize = 0;
    proof {
        assert(tvs.take(0) =~= Seq::<ATv>::empty());
        assert(at_views(acc@) =~= Seq::<ATv>::empty());
    }
    while i < tokens.len()
        invariant
            i <= tokens@.len(),
            tvs == at_views(tokens@),
            at_views(acc@) == consolidated(tvs.take(i as int)),
        decreases tokens@.len() - i,
    {
        proof {
            assert(tvs.take(i + 1 as int) =~= tvs.take(i as int).push(tvs[i as int]));
            assert(tvs.take(i + 1 as int).drop_last() =~= tvs.take(i as int));
        }
        let t = &tokens[i];
        let key = crate::text::lower_chars(&chars_of(t.text.as_str()));
        // Find the first accumulated token with this key.
        let mut j: usize = 0;
        let mut found: Option<usize> = None;
        while j < acc.len()
            invariant
                j <= acc@.len(),
                key@ == lower_seq(at_v(tokens@[i as int]).text),
                i < tokens@.len(),
                match found {
                    Some(f) => f < acc@.len() && lower_seq(at_v(acc@[f as int]).text) == key@
                        && forall|m: int|
                        0 <= m < f ==> lower_seq(at_v(#[trigger] acc@[m]).text) != key@,
                    None => forall|m: int|
                        0 <= m < j ==> lower_seq(at_v(#[trigger] acc@[m]).text) != key@,
                },
                found is Some ==> j == acc@.len(),
            decreases acc@.len() - j,
        {
            let ak = crate::text::lower_chars(&chars_of(acc[j].text.as_str()));
            if crate::text::chars_eq(&ak, &key) {
                found = Some(j);
                j = acc.len();
            } else {
                j = j + 1;
            }
        }
        proof {
            let avs = at_views(acc@);
            match found {
                Some(f) => {
                    lemma_cons_idx_determined(avs, key@, f as int);
                },
                None => {
                    lemma_cons_idx_props(avs, key@);
                    if cons_idx(avs, key@) >= 0 {
                        assert(lower_seq(avs[cons_idx(avs, key@)].text) == key@);
                        assert(false);
                    }
                },
            }
        }
        match found {
            Some(f) => {
                let dup = dup_analysis_token(t);
                let ghost pre_acc = acc@;
                let slot = &mut acc[f];
                merge_into(slot, &dup);
                proof {
                    assert(at_views(acc@) =~= cons_step(at_views(pre_acc), tvs[i as int]));
                }
            },
            None => {
                acc.push(dup_analysis_token(t));
                proof {
                    assert(at_views(acc@) =~= at_views(acc@.drop_last()).push(
                        at_v(acc@.last()),
                    ));
                }
            },
        }
        i = i + 1;
    }
    proof {
        assert(tvs.take(tokens@.len() as int) =~= tvs);
    }
    acc
}

proof fn lemma_cons_idx_determined(acc: Seq<ATv>, k: Seq<char>, i: int)
    requires
        0 <= i < acc.len(),
        lower_seq(acc[i].text) == k,
        forall|j: int| 0 <= j < i ==> lower_seq((#[trigger] acc[j]).text) != k,
    ensures
        cons_idx(acc, k) == i,
    decreases acc.len(),
{
    if i > 0 {
        assert(lower_seq(acc[0].text) != k);
        assert(acc.skip(1)[i - 1] == acc[i]);
        assert forall|j: int| 0 <= j < i - 1 implies lower_seq(
            (#[trigger] acc.skip(1)[j]).text,
        ) != k by {
            assert(acc.skip(1)[j] == acc[j + 1]);
        }
        lemma_cons_idx_determined(acc.skip(1), k, i - 1);
    }
}

// ----- the consolidation pipeline -----------------------------------------

/// Adds a key to the set of already-emitted display keys; empty keys are
/// never recorded.
pub open spec fn seen_add(seen: Seq<Seq<char>>, k: Seq<char>) -> Seq<Seq<char>> {
    if k.len() == 0 || seen.contains(k) {
        seen
    } else {
        seen.push(k)
    }
}

/// The display label of a morphology segment: its surface text, with the
/// segment type in brackets when present.
pub open spec fn m_label(e: MorphEntry) -> Seq<char> {
    match e.type_ {
        Some(t) => e.text@ + " ("@ + t@ + ")"@,
        None => e.text@,
    }
}

/// The part-of-speech display of a morphology segment, with a present
/// dependency relation folded in.
pub open spec fn m_pos(e: MorphEntry) -> Option<Seq<char>> {
    match e.dependency_rel {
        Some(d) => match e.pos {
            Some(p) => Some(p@ + " | dep: "@ + d@),
            None => Some("dep: "@ + d@),
        },
        None => crate::storage::opt_v(e.pos),
    }
}

/// The form shown for a morphology segment: its form, else its raw
/// part-of-speech tag.
pub open spec fn m_form(e: MorphEntry) -> Option<Seq<char>> {
    if e.form is Some {
        crate::storage::opt_v(e.form)
    } else {
        crate::storage::opt_v(e.pos)
    }
}

/// The analysis token one morphology segment contributes.
pub open spec fn m_tok(e: MorphEntry) -> ATv {
    ATv {
        text: m_label(e),
        root: crate::storage::opt_v(e.root),
        pos: m_pos(e),
        form: m_form(e),
        lemma: crate::storage::opt_v(e.lemma),
        features: crate::storage::opt_v(e.features),
        role: crate::storage::opt_v(e.role),
        case_: crate::storage::opt_v(e.case_),
        gender: crate::storage::opt_v(e.gender),
        number: crate::storage::opt_v(e.number),
        definiteness: crate::storage::opt_v(e.definiteness),
        determiner: e.determiner,
    }
}

/// The coverage key of a morphology segment: its lowercased form, else
/// its lowercased text.
pub open spec fn m_key(e: MorphEntry) -> Seq<char> {
    match e.form {
        Some(f) => lower_seq(f@),
        None => lower_seq(e.text@),
    }
}

pub open spec fn morph_out(es: Seq<MorphEntry>) -> Seq<ATv> {
    es.map_values(|e: MorphEntry| m_tok(e))
}

/// The keys covered after the morphology pass.
pub open spec fn morph_seen(es: Seq<MorphEntry>, seen: Seq<Seq<char>>) -> Seq<Seq<char>>
    decreases es.len(),
{
    if es.len() == 0 {
        seen
    } else {
        let s1 = morph_seen(es.drop_last(), seen);
        seen_add(seen_add(s1, m_key(es.last())), lower_seq(es.last().text@))
    }
}

/// Whether a word from a split or the repair pass is still uncovered.
pub open spec fn word_kept(w: Seq<char>, seen: Seq<Seq<char>>) -> bool {
    lower_seq(w).len() > 0 && !seen.contains(lower_seq(w))
}

/// The bare tokens a word list contributes: each still-uncovered word, in
/// order, covering its key as it goes.
pub open spec fn ws_out(words: Seq<Seq<char>>, seen: Seq<Seq<char>>) -> Seq<ATv>
    decreases words.len(),
{
    if words.len() == 0 {
        Seq::empty()
    } else {
        let rest = ws_out(words.drop_last(), seen);
        if word_kept(words.last(), ws_seen(words.drop_last(), seen)) {
            rest.push(empty_at(words.last()))
        } else {
            rest
        }
    }
}

/// The keys covered after a word list pass.
pub open spec fn ws_seen(words: Seq<Seq<char>>, seen: Seq<Seq<char>>) -> Seq<Seq<char>>
    decreases words.len(),
{
    if words.len() == 0 {
        seen
    } else {
        let s1 = ws_seen(words.drop_last(), seen);
        if word_kept(words.last(), s1) {
            s1.push(lower_seq(words.last()))
        } else {
            s1
        }
    }
}

/// The surface a raw token shows: its segmented form, else its text.
pub open spec fn base_text(t: VerseTokenInput) -> Seq<char> {
    match t.form {
        Some(f) => f@,
        None => match t.text {
            Some(x) => x@,
            None => Seq::empty(),
        },
    }
}

/// The analysis token one raw sub-segment contributes.
pub open spec fn seg_tok(bt: Seq<char>, form: Option<Seq<char>>, g: TokenSegment) -> ATv {
    ATv {
        text: match g.pos {
            Some(p) => bt + " ("@ + p@ + ")"@,
            None => bt,
        },
        root: crate::storage::opt_v(g.root),
        pos: crate::storage::opt_v(g.pos),
        form,
        lemma: None,
        features: None,
        role: None,
        case_: None,
        gender: None,
        number: None,
        definiteness: None,
        determiner: None,
    }
}

/// What one uncovered raw token contributes in fallback mode: nothing
/// when its key was already emitted; a word-per-word split when it is an
/// unsplit multi-word span; one token per sub-segment; or one bare token.
pub open spec fn fb_tok_out(t: VerseTokenInput, seen: Seq<Seq<char>>) -> Seq<ATv> {
    let bt = base_text(t);
    let k = lower_seq(bt);
    if k.len() > 0 && seen.contains(k) {
        Seq::empty()
    } else if t.segments@.len() == 0 {
        if crate::text::has_space(bt) {
            ws_out(ws_words(bt), seen)
        } else {
            seq![
                ATv {
                    text: bt,
                    root: None,
                    pos: None,
                    form: crate::storage::opt_v(t.form),
                    lemma: None,
                    features: None,
                    role: None,
                    case_: None,
                    gender: None,
                    number: None,
                    definiteness: None,
                    determiner: None,
                },
            ]
        }
    } else {
        t.segments@.map_values(
            |g: TokenSegment| seg_tok(base_text(t), crate::storage::opt_v(t.form), g),
        )
    }
}

/// The keys one raw token covers in fallback mode.
pub open spec fn fb_tok_seen(t: VerseTokenInput, seen: Seq<Seq<char>>) -> Seq<Seq<char>> {
    let bt = base_text(t);
    let k = lower_seq(bt);
    if k.len() > 0 && seen.contains(k) {
        seen
    } else if t.segments@.len() == 0 && crate::text::has_space(bt) {
        ws_seen(ws_words(bt), seen)
    } else {
        seen
    }
}

pub open spec fn fb_out(ts: Seq<VerseTokenInput>, seen: Seq<Seq<char>>) -> Seq<ATv>
    decreases ts.len(),
{
    if ts.len() == 0 {
        Seq::empty()
    } else {
        fb_out(ts.drop_last(), seen) + fb_tok_out(ts.last(), fb_seen(ts.drop_last(), seen))
    }
}

pub open spec fn fb_seen(ts: Seq<VerseTokenInput>, seen: Seq<Seq<char>>) -> Seq<Seq<char>>
    decreases ts.len(),
{
    if ts.len() == 0 {
        seen
    } else {
        fb_tok_seen(ts.last(), fb_seen(ts.drop_last(), seen))
    }
}

/// The analysis token one dependency edge contributes, labelled
/// `relation -> word`.
pub open spec fn dep_tok(d: DependencyEntry) -> ATv {
    let rel = match d.rel_label {
        Some(r) => r@,
        None => "dep"@,
    };
    let w = match d.word {
        Some(x) => x@,
        None => Seq::<char>::empty(),
    };
    ATv {
        text: rel + " -> "@ + w,
        root: None,
        pos: crate::storage::opt_v(d.pos),
        form: None,
        lemma: None,
        features: None,
        role: Some(rel),
        case_: None,
        gender: None,
        number: None,
        definiteness: None,
        determiner: None,
    }
}

pub open spec fn dep_out(ds: Seq<DependencyEntry>) -> Seq<ATv> {
    ds.map_values(|d: DependencyEntry| dep_tok(d))
}

/// The whole consolidated analysis of a verse: morphology tokens first;
/// in fallback mode the uncovered raw tokens and then a repair pass over
/// the verse text's own words, so every word is represented; dependency
/// edges last; all consolidated by lowercased display text.
pub open spec fn analysis_of(
    verse: VerseInput,
    morph: Seq<MorphEntry>,
    deps: Seq<DependencyEntry>,
    include_text_fallback: bool,
) -> Seq<ATv> {
    let s1 = morph_seen(morph, Seq::empty());
    let f_out = if include_text_fallback {
        fb_out(verse.tokens@, s1)
    } else {
        Seq::empty()
    };
    let s2 = if include_text_fallback {
        fb_seen(verse.tokens@, s1)
    } else {
        s1
    };
    let r_out = if include_text_fallback {
        ws_out(ws_words(verse.text@), s2)
    } else {
        Seq::empty()
    };
    consolidated(morph_out(morph) + f_out + r_out + dep_out(deps))
}

// ----- executable pipeline ------------------------------------------------

pub open spec fn char_views(s: Seq<Vec<char>>) -> Seq<Seq<char>> {
    s.map_values(|v: Vec<char>| v@)
}

/// Whether a key is already covered.
fn seen_has(seen: &Vec<Vec<char>>, k: &Vec<char>) -> (r: bool)
    ensures
        r == char_views(seen@).contains(k@),
{
    let mut i: usize = 0;
    while i < seen.len()
        invariant
            i <= seen@.len(),
            forall|j: int| 0 <= j < i ==> seen@[j]@ != k@,
        decreases seen@.len() - i,
    {
        if crate::text::chars_eq(&seen[i], k) {
            proof {
                assert(char_views(seen@)[i as int] == k@);
            }
            return true;
        }
        i = i + 1;
    }
    proof {
        if char_views(seen@).contains(k@) {
            let j = choose|j: int|
                0 <= j < char_views(seen@).len() && char_views(seen@)[j] == k@;
            assert(seen@[j]@ == k@);
            assert(false);
        }
    }
    false
}

/// Covers a key: empty keys are never recorded, present ones stay put.
fn seen_insert(seen: &mut Vec<Vec<char>>, k: Vec<char>)
    ensures
        char_views(final(seen)@) == seen_add(char_views(old(seen)@), k@),
{
    if k.len() == 0 {
        return ;
    }
    if seen_has(seen, &k) {
        return ;
    }
    seen.push(k);
    proof {
        assert(char_views(seen@) =~= char_views(old(seen)@).push(seen@.last()@));
    }
}

/// Builds the display label of a morphology segment.
fn m_label_exec(e: &MorphEntry) -> (r: String)
    ensures
        r@ == m_label(*e),
{
    match &e.type_ {
        Some(t) => {
            let a = chars_of(e.text.as_str());
            let b = chars_of(" (");
            let c = chars_of(t.as_str());
            let d = chars_of(")");
            let ab = concat_chars(&a, &b);
            let abc = concat_chars(&ab, &c);
            let abcd = concat_chars(&abc, &d);
            string_of(&abcd)
        },
        None => e.text.clone(),
    }
}

/// Builds the part-of-speech display of a morphology segment.
fn m_pos_exec(e: &MorphEntry) -> (r: Option<String>)
    ensures
        crate::storage::opt_v(r) == m_pos(*e),
{
    match &e.dependency_rel {
        Some(d) => {
            match &e.pos {
                Some(p) => {
                    let a = chars_of(p.as_str());
                    let b = chars_of(" | dep: ");
                    let c = chars_of(d.as_str());
                    let ab = concat_chars(&a, &b);
                    let abc = concat_chars(&ab, &c);
                    Some(string_of(&abc))
                },
                None => {
                    let a = chars_of("dep: ");
                    let b = chars_of(d.as_str());
                    let ab = concat_chars(&a, &b);
                    Some(string_of(&ab))
                },
            }
        },
        None => crate::model::dup_opt_string(&e.pos),
    }
}

/// Builds the analysis token of a morphology segment.
fn m_tok_exec(e: &MorphEntry) -> (r: AnalysisToken)
    ensures
        at_v(r) == m_tok(*e),
{
    let form = match &e.form {
        Some(f) => Some(f.clone()),
        None => crate::model::dup_opt_string(&e.pos),
    };
    AnalysisToken {
        text: m_label_exec(e),
        root: crate::model::dup_opt_string(&e.root),
        pos: m_pos_exec(e),
        form,
        lemma: crate::model::dup_opt_string(&e.lemma),
        features: crate::model::dup_opt_string(&e.features),
        role: crate::model::dup_opt_string(&e.role),
        case_: crate::model::dup_opt_string(&e.case_),
        gender: crate::model::dup_opt_string(&e.gender),
        number: crate::model::dup_opt_string(&e.number),
        definiteness: crate::model::dup_opt_string(&e.definiteness),
        determiner: e.determiner,
    }
}

/// Builds the analysis token of a dependency edge.
fn dep_tok_exec(d: &DependencyEntry) -> (r: AnalysisToken)
    ensures
        at_v(r) == dep_tok(*d),
{
    let rel: String = match &d.rel_label {
        Some(x) => x.clone(),
        None => {
            let v = chars_of("dep");
            string_of(&v)
        },
    };
    let w: String = match &d.word {
        Some(x) => x.clone(),
        None => String::new(),
    };
    let a = chars_of(rel.as_str());
    let b = chars_of(" -> ");
    let c = chars_of(w.as_str());
    let ab = concat_chars(&a, &b);
    let abc = concat_chars(&ab, &c);
    AnalysisToken {
        text: string_of(&abc),
        root: None,
        pos: crate::model::dup_opt_string(&d.pos),
        form: None,
        lemma: None,
        features: None,
        role: Some(rel),
        case_: None,
        gender: None,
        number: None,
        definiteness: None,
        determiner: None,
    }
}

/// Emits a bare token for every still-uncovered word, covering each as it
/// is emitted; the word-splitting step and the whole-text repair pass.
fn emit_words(words: &Vec<Vec<char>>, seen: &mut Vec<Vec<char>>, out: &mut Vec<AnalysisToken>)
    ensures
        at_views(final(out)@) == at_views(old(out)@) + ws_out(
            char_views(words@),
            char_views(old(seen)@),
        ),
        char_views(final(seen)@) == ws_seen(char_views(words@), char_views(old(seen)@)),
{
    let ghost wv = char_views(words@);
    let ghost s0 = char_views(old(seen)@);
    let mut i: usize = 0;
    proof {
        assert(wv.take(0) =~= Seq::<Seq<char>>::empty());
        assert(at_views(out@) =~= at_views(out@) + ws_out(wv.take(0), s0));
    }
    while i < words.len()
        invariant
            i <= words@.len(),
            wv == char_views(words@),
            s0 == char_views(old(seen)@),
            at_views(out@) == at_views(old(out)@) + ws_out(wv.take(i as int), s0),
            char_views(seen@) == ws_seen(wv.take(i as int), s0),
        decreases words@.len() - i,
    {
        proof {
            assert(wv.take(i + 1 as int) =~= wv.take(i as int).push(wv[i as int]));
            assert(wv.take(i + 1 as int).drop_last() =~= wv.take(i as int));
        }
        let w = &words[i];
        let k = crate::text::lower_chars(w);
        if k.len() > 0 && !seen_has(seen, &k) {
            seen.push(k);
            out.push(bare_token(string_of(w)));
            proof {
                assert(char_views(seen@) =~= ws_seen(wv.take(i as int), s0).push(
                    lower_seq(wv[i as int]),
                ));
                assert(at_views(out@) =~= (at_views(old(out)@) + ws_out(
                    wv.take(i as int),
                    s0,
                )).push(empty_at(wv[i as int])));
                assert((at_views(old(out)@) + ws_out(wv.take(i as int), s0)).push(
                    empty_at(wv[i as int]),
                ) =~= at_views(old(out)@) + ws_out(wv.take(i as int), s0).push(
                    empty_at(wv[i as int]),
                ));
            }
        }
        i = i + 1;
    }
    proof {
        assert(wv.take(words@.len() as int) =~= wv);
    }
}

/// One flat, deduplicated, richly tagged token list for a verse, built
/// from up to three imperfect sources: morphology segments, dependency
/// edges, and — in fallback mode — the verse's own raw tokens and text.
pub fn build_analysis_tokens(
    verse: &VerseInput,
    morphology: &Vec<MorphEntry>,
    dependencies: &Vec<DependencyEntry>,
    include_text_fallback: bool,
) -> (r: Vec<AnalysisToken>)
    ensures
        at_views(r@) == analysis_of(*verse, morphology@, dependencies@, include_text_fallback),
{
    let mut out: Vec<AnalysisToken> = Vec::new();
    let mut seen: Vec<Vec<char>> = Vec::new();

    // Morphology pass: one analysis token per segment.
    let mut i: usize = 0;
    proof {
        assert(morphology@.take(0) =~= Seq::<MorphEntry>::empty());
        assert(at_views(out@) =~= morph_out(morphology@.take(0)));
        assert(char_views(seen@) =~= Seq::<Seq<char>>::empty());
    }
    while i < morphology.len()
        invariant
            i <= morphology@.len(),
            at_views(out@) == morph_out(morphology@.take(i as int)),
            char_views(seen@) == morph_seen(morphology@.take(i as int), Seq::empty()),
        decreases morphology@.len() - i,
    {
        proof {
            assert(morphology@.take(i + 1 as int) =~= morphology@.take(i as int).push(
                morphology@[i as int],
            ));
            assert(morphology@.take(i + 1 as int).drop_last() =~= morphology@.take(i as int));
        }
        let e = &morphology[i];
        let t = m_tok_exec(e);
        out.push(t);
        proof {
            assert(at_views(out@) =~= morph_out(morphology@.take(i as int)).push(
                m_tok(morphology@[i as int]),
            ));
            assert(morph_out(morphology@.take(i + 1 as int)) =~= morph_out(
                morphology@.take(i as int),
            ).push(m_tok(morphology@[i as int])));
        }
        let key = match &e.form {
            Some(f) => crate::text::lower_chars(&chars_of(f.as_str())),
            None => crate::text::lower_chars(&chars_of(e.text.as_str())),
        };
        seen_insert(&mut seen, key);
        let tkey = crate::text::lower_chars(&chars_of(e.text.as_str()));
        seen_insert(&mut seen, tkey);
        i = i + 1;
    }
    proof {
        assert(morphology@.take(morphology@.len() as int) =~= morphology@);
    }
    let ghost s1 = morph_seen(morphology@, Seq::empty());

    if include_text_fallback {
        // Fallback pass: raw tokens not yet represented.
        let mut j: usize = 0;
        proof {
            assert(verse.tokens@.take(0) =~= Seq::<VerseTokenInput>::empty());
            assert(at_views(out@) =~= morph_out(morphology@) + fb_out(
                verse.tokens@.take(0),
                s1,
            ));
        }
        while j < verse.tokens.len()
            invariant
                j <= verse.tokens@.len(),
                s1 == morph_seen(morphology@, Seq::empty()),
                at_views(out@) == morph_out(morphology@) + fb_out(
                    verse.tokens@.take(j as int),
                    s1,
                ),
                char_views(seen@) == fb_seen(verse.tokens@.take(j as int), s1),
            decreases verse.tokens@.len() - j,
        {
            proof {
                assert(verse.tokens@.take(j + 1 as int) =~= verse.tokens@.take(j as int).push(
                    verse.tokens@[j as int],
                ));
                assert(verse.tokens@.take(j + 1 as int).drop_last() =~= verse.tokens@.take(
                    j as int,
                ));
            }
            let t = &verse.tokens[j];
            let ghost tj = verse.tokens@[j as int];
            let ghost prev_seen = fb_seen(verse.tokens@.take(j as int), s1);
            let ghost prev_out = at_views(out@);
            let bt: Vec<char> = match &t.form {
                Some(f) => chars_of(f.as_str()),
                None => match &t.text {
                    Some(x) => chars_of(x.as_str()),
                    None => Vec::new(),
                },
            };
            proof {
                assert(bt@ == base_text(tj));
            }
            let k = crate::text::lower_chars(&bt);
            let skip = k.len() > 0 && seen_has(&seen, &k);
            if !skip {
                if t.segments.len() == 0 {
                    if crate::text::chars_have_space(&bt) {
                        let words = crate::text::split_words(&bt);
                        proof {
                            assert(char_views(words@) =~= ws_words(bt@));
                        }
                        emit_words(&words, &mut seen, &mut out);
                        proof {
                            assert(fb_tok_out(tj, prev_seen) == ws_out(ws_words(bt@), prev_seen));
                            assert(at_views(out@) =~= prev_out + fb_tok_out(tj, prev_seen));
                            assert(char_views(seen@) == fb_tok_seen(tj, prev_seen));
                        }
                    } else {
                        out.push(
                            AnalysisToken {
                                text: string_of(&bt),
                                root: None,
                                pos: None,
                                form: crate::model::dup_opt_string(&t.form),
                                lemma: None,
                                features: None,
                                role: None,
                                case_: None,
                                gender: None,
                                number: None,
                                definiteness: None,
                                determiner: None,
                            },
                        );
                        proof {
                            assert(at_views(out@) =~= at_views(out@.drop_last()).push(
                                at_v(out@.last()),
                            ));
                            assert(at_views(out@) =~= prev_out + fb_tok_out(tj, prev_seen));
                        }
                    }
                } else {
                    // One token per sub-segment.
                    let ghost base = at_views(out@);
                    let mut g: usize = 0;
                    proof {
                        assert(tj.segments@.take(0) =~= Seq::<TokenSegment>::empty());
                        assert(base + tj.segments@.take(0).map_values(
                            |x: TokenSegment|
                                seg_tok(base_text(tj), crate::storage::opt_v(tj.form), x),
                        ) =~= base);
                    }
                    while g < t.segments.len()
                        invariant
                            g <= t.segments@.len(),
                            t == &verse.tokens@[j as int],
                            tj == verse.tokens@[j as int],
                            bt@ == base_text(tj),
                            at_views(out@) == base + tj.segments@.take(g as int).map_values(
                                |x: TokenSegment|
                                    seg_tok(base_text(tj), crate::storage::opt_v(tj.form), x),
                            ),
                        decreases t.segments@.len() - g,
                    {
                        let sg = &t.segments[g];
                        let label: String = match &sg.pos {
                            Some(p) => {
                                let a = chars_of(" (");
                                let b = chars_of(p.as_str());
                                let c = chars_of(")");
                                let ab = concat_chars(&bt, &a);
                                let abc = concat_chars(&ab, &b);
                                let abcd = concat_chars(&abc, &c);
                                string_of(&abcd)
                            },
                            None => string_of(&bt),
                        };
                        out.push(
                            AnalysisToken {
                                text: label,
                                root: crate::model::dup_opt_string(&sg.root),
                                pos: crate::model::dup_opt_string(&sg.pos),
                                form: crate::model::dup_opt_string(&t.form),
                                lemma: None,
                                features: None,
                                role: None,
                                case_: None,
                                gender: None,
                                number: None,
                                definiteness: None,
                                determiner: None,
                            },
                        );
                        proof {
                            assert(at_v(out@.last()) == seg_tok(
                                base_text(tj),
                                crate::storage::opt_v(tj.form),
                                tj.segments@[g as int],
                            ));
                            assert(at_views(out@) =~= at_views(out@.drop_last()).push(
                                at_v(out@.last()),
                            ));
                            assert(tj.segments@.take(g + 1 as int) =~= tj.segments@.take(
                                g as int,
                            ).push(tj.segments@[g as int]));
                            assert(tj.segments@.take(g + 1 as int).map_values(
                                |x: TokenSegment|
                                    seg_tok(base_text(tj), crate::storage::opt_v(tj.form), x),
                            ) =~= tj.segments@.take(g as int).map_values(
                                |x: TokenSegment|
                                    seg_tok(base_text(tj), crate::storage::opt_v(tj.form), x),
                            ).push(seg_tok(base_text(tj), crate::storage::opt_v(tj.form),
                                tj.segments@[g as int])));
                            assert((base + tj.segments@.take(g as int).map_values(
                                |x: TokenSegment|
                                    seg_tok(base_text(tj), crate::storage::opt_v(tj.form), x),
                            )).push(seg_tok(base_text(tj), crate::storage::opt_v(tj.form),
                                tj.segments@[g as int])) =~= base + tj.segments@.take(
                                g as int,
                            ).map_values(
                                |x: TokenSegment|
                                    seg_tok(base_text(tj), crate::storage::opt_v(tj.form), x),
                            ).push(seg_tok(base_text(tj), crate::storage::opt_v(tj.form),
                                tj.segments@[g as int])));
                            assert(base + tj.segments@.take(g + 1 as int).map_values(
                                |x: TokenSegment|
                                    seg_tok(base_text(tj), crate::storage::opt_v(tj.form), x),
                            ) =~= at_views(out@));
                        }
                        g = g + 1;
                    }
                    proof {
                        assert(tj.segments@.take(t.segments@.len() as int) =~= tj.segments@);
                        assert(tj.segments@.map_values(
                            |x: TokenSegment|
                                seg_tok(base_text(tj), crate::storage::opt_v(tj.form), x),
                        ) =~= fb_tok_out(tj, prev_seen));
                        assert(at_views(out@) =~= prev_out + fb_tok_out(tj, prev_seen));
                    }
                }
            }
            proof {
                if skip {
                    assert(fb_tok_out(tj, prev_seen) =~= Seq::<ATv>::empty());
                    assert(at_views(out@) =~= prev_out + fb_tok_out(tj, prev_seen));
                    assert(char_views(seen@) == fb_tok_seen(tj, prev_seen));
                }
                assert(at_views(out@) =~= prev_out + fb_tok_out(tj, prev_seen));
                assert(char_views(seen@) == fb_tok_seen(tj, prev_seen));
                assert(fb_out(verse.tokens@.take(j + 1 as int), s1) == fb_out(
                    verse.tokens@.take(j as int),
                    s1,
                ) + fb_tok_out(tj, prev_seen));
                assert((morph_out(morphology@) + fb_out(verse.tokens@.take(j as int), s1))
                    + fb_tok_out(tj, prev_seen) =~= morph_out(morphology@) + fb_out(
                    verse.tokens@.take(j + 1 as int),
                    s1,
                ));
                assert(at_views(out@) =~= morph_out(morphology@) + fb_out(
                    verse.tokens@.take(j + 1 as int),
                    s1,
                ));
                assert(char_views(seen@) =~= fb_seen(verse.tokens@.take(j + 1 as int), s1));
            }
            j = j + 1;
        }
        proof {
            assert(verse.tokens@.take(verse.tokens@.len() as int) =~= verse.tokens@);
        }

        // Repair pass: every word of the verse text still uncovered.
        let text_words = crate::text::split_words(&chars_of(verse.text.as_str()));
        proof {
            assert(char_views(text_words@) =~= ws_words(verse.text@));
        }
        emit_words(&text_words, &mut seen, &mut out);
        proof {
            assert(at_views(out@) =~= (morph_out(morphology@) + fb_out(verse.tokens@, s1))
                + ws_out(ws_words(verse.text@), fb_seen(verse.tokens@, s1)));
        }
    }
    let ghost pre_dep = at_views(out@);

    // Dependency pass: one token per edge.
    let mut d: usize = 0;
    proof {
        assert(dependencies@.take(0) =~= Seq::<DependencyEntry>::empty());
        assert(pre_dep + dep_out(dependencies@.take(0)) =~= pre_dep);
    }
    while d < dependencies.len()
        invariant
            d <= dependencies@.len(),
            at_views(out@) == pre_dep + dep_out(dependencies@.take(d as int)),
        decreases dependencies@.len() - d,
    {
        out.push(dep_tok_exec(&dependencies[d]));
        proof {
            assert(at_views(out@) =~= at_views(out@.drop_last()).push(at_v(out@.last())));
            assert(dependencies@.take(d + 1 as int) =~= dependencies@.take(d as int).push(
                dependencies@[d as int],
            ));
            assert(dep_out(dependencies@.take(d + 1 as int)) =~= dep_out(
                dependencies@.take(d as int),
            ).push(dep_tok(dependencies@[d as int])));
            assert((pre_dep + dep_out(dependencies@.take(d as int))).push(
                dep_tok(dependencies@[d as int]),
            ) =~= pre_dep + dep_out(dependencies@.take(d as int)).push(
                dep_tok(dependencies@[d as int]),
            ));
            assert(pre_dep + dep_out(dependencies@.take(d + 1 as int)) =~= at_views(out@));
        }
        d = d + 1;
    }
    proof {
        assert(dependencies@.take(dependencies@.len() as int) =~= dependencies@);
    }

    let r = consolidate_tokens(out);
    proof {
        let f_out = if include_text_fallback {
            fb_out(verse.tokens@, s1)
        } else {
            Seq::<ATv>::empty()
        };
        let s2 = if include_text_fallback {
            fb_seen(verse.tokens@, s1)
        } else {
            s1
        };
        let r_out = if include_text_fallback {
            ws_out(ws_words(verse.text@), s2)
        } else {
            Seq::<ATv>::empty()
        };
        assert(pre_dep + dep_out(dependencies@) =~= morph_out(morphology@) + f_out + r_out
            + dep_out(dependencies@));
    }
    r
}

/// Covering one more key keeps every covered key covered.
proof fn lemma_seen_add_keeps(seen: Seq<Seq<char>>, k: Seq<char>, x: Seq<char>)
    requires
        seen.contains(x),
    ensures
        seen_add(seen, k).contains(x),
{
    if !(k.len() == 0 || seen.contains(k)) {
        let j = choose|j: int| 0 <= j < seen.len() && seen[j] == x;
        assert(seen.push(k)[j] == x);
    }
}

/// After the morphology pass every entry's nonempty keys — its form-based
/// coverage key and its lowercased text — are covered.
proof fn lemma_morph_seen_covers(es: Seq<MorphEntry>, seen: Seq<Seq<char>>, j: int)
    requires
        0 <= j < es.len(),
    ensures
        m_key(es[j]).len() > 0 ==> morph_seen(es, seen).contains(m_key(es[j])),
        lower_seq(es[j].text@).len() > 0 ==> morph_seen(es, seen).contains(
            lower_seq(es[j].text@),
        ),
    decreases es.len(),
{
    let s1 = morph_seen(es.drop_last(), seen);
    let s2 = seen_add(s1, m_key(es.last()));
    if j == es.len() - 1 {
        if m_key(es[j]).len() > 0 {
            if !s1.contains(m_key(es[j])) {
                assert(s2[s1.len() as int] == m_key(es[j]));
            }
            assert(s2.contains(m_key(es[j])));
            lemma_seen_add_keeps(s2, lower_seq(es.last().text@), m_key(es[j]));
        }
        if lower_seq(es[j].text@).len() > 0 {
            if !s2.contains(lower_seq(es[j].text@)) {
                assert(seen_add(s2, lower_seq(es.last().text@))[s2.len() as int] == lower_seq(
                    es[j].text@,
                ));
            }
        }
    } else {
        assert(es.drop_last()[j] == es[j]);
        lemma_morph_seen_covers(es.drop_last(), seen, j);
        if m_key(es[j]).len() > 0 {
            lemma_seen_add_keeps(s1, m_key(es.last()), m_key(es[j]));
            lemma_seen_add_keeps(s2, lower_seq(es.last().text@), m_key(es[j]));
        }
        if lower_seq(es[j].text@).len() > 0 {
            lemma_seen_add_keeps(s1, m_key(es.last()), lower_seq(es[j].text@));
            lemma_seen_add_keeps(s2, lower_seq(es.last().text@), lower_seq(es[j].text@));
        }
    }
}

/// A word pass keeps every covered key covered.
proof fn lemma_ws_seen_keeps(words: Seq<Seq<char>>, seen: Seq<Seq<char>>, x: Seq<char>)
    requires
        seen.contains(x),
    ensures
        ws_seen(words, seen).contains(x),
    decreases words.len(),
{
    if words.len() > 0 {
        lemma_ws_seen_keeps(words.drop_last(), seen, x);
        let s1 = ws_seen(words.drop_last(), seen);
        if word_kept(words.last(), s1) {
            let j = choose|j: int| 0 <= j < s1.len() && s1[j] == x;
            assert(s1.push(lower_seq(words.last()))[j] == x);
        }
    }
}

/// The fallback walk keeps every covered key covered.
proof fn lemma_fb_seen_keeps(ts: Seq<VerseTokenInput>, seen: Seq<Seq<char>>, x: Seq<char>)
    requires
        seen.contains(x),
    ensures
        fb_seen(ts, seen).contains(x),
    decreases ts.len(),
{
    if ts.len() > 0 {
        lemma_fb_seen_keeps(ts.drop_last(), seen, x);
        let s1 = fb_seen(ts.drop_last(), seen);
        let t = ts.last();
        let bt = base_text(t);
        let k = lower_seq(bt);
        if !(k.len() > 0 && s1.contains(k)) && t.segments@.len() == 0
            && crate::text::has_space(bt) {
            lemma_ws_seen_keeps(ws_words(bt), s1, x);
        }
    }
}

/// Consolidation merge, the general dedup side: a raw token whose surface
/// key the morphology pass already covered contributes nothing to the
/// fallback walk, wherever in the walk it stands — a surface emitted from
/// morphology is never re-emitted by the fallback.
pub proof fn lemma_fallback_skips_covered(
    es: Seq<MorphEntry>,
    ts: Seq<VerseTokenInput>,
    t: int,
    j: int,
)
    requires
        0 <= t < ts.len(),
        0 <= j < es.len(),
        lower_seq(base_text(ts[t])) == m_key(es[j]) || lower_seq(base_text(ts[t])) == lower_seq(
            es[j].text@,
        ),
        lower_seq(base_text(ts[t])).len() > 0,
    ensures
        fb_tok_out(ts[t], fb_seen(ts.take(t), morph_seen(es, Seq::empty()))) == Seq::<
            ATv,
        >::empty(),
{
    let s1 = morph_seen(es, Seq::empty());
    let k = lower_seq(base_text(ts[t]));
    lemma_morph_seen_covers(es, Seq::empty(), j);
    assert(s1.contains(k));
    lemma_fb_seen_keeps(ts.take(t), s1, k);
}

/// Whole-span repair: after a word pass every word with a nonempty key is
/// covered, so the repair pass over the verse's own text guarantees full
/// text coverage even with partial sources.
pub proof fn lemma_repair_covers(words: Seq<Seq<char>>, seen: Seq<Seq<char>>, k: int)
    requires
        0 <= k < words.len(),
        lower_seq(words[k]).len() > 0,
    ensures
        ws_seen(words, seen).contains(lower_seq(words[k])),
    decreases words.len(),
{
    let s1 = ws_seen(words.drop_last(), seen);
    if k == words.len() - 1 {
        if word_kept(words.last(), s1) {
            assert(s1.push(lower_seq(words.last())).last() == lower_seq(words[k]));
            assert(ws_seen(words, seen).contains(lower_seq(words[k])));
        } else {
            // Not kept while nonempty: its key was already covered.
            assert(s1.contains(lower_seq(words[k])));
        }
    } else {
        assert(words.drop_last()[k] == words[k]);
        lemma_repair_covers(words.drop_last(), seen, k);
        if word_kept(words.last(), s1) {
            let j = choose|j: int| 0 <= j < s1.len() && s1[j] == lower_seq(words[k]);
            assert(s1.push(lower_seq(words.last()))[j] == lower_seq(words[k]));
        }
    }
}

// ----- strict positional coverage -----------------------------------------

/// The position a raw index normalizes to: sources may count words from
/// zero or one, so when the smallest raw index is zero every index shifts
/// up by one.
pub open spec fn norm_pos(i: int, min0: int) -> int {
    if min0 == 0 {
        i + 1
    } else {
        i
    }
}

pub open spec fn min_of(s: Seq<usize>) -> int
    decreases s.len(),
{
    if s.len() == 0 {
        0
    } else if s.len() == 1 {
        s[0] as int
    } else {
        let m = min_of(s.drop_last());
        if (s.last() as int) < m {
            s.last() as int
        } else {
            m
        }
    }
}

pub open spec fn max_norm(s: Seq<usize>, min0: int) -> int
    decreases s.len(),
{
    if s.len() == 0 {
        0
    } else {
        let m = max_norm(s.drop_last(), min0);
        if norm_pos(s.last() as int, min0) > m {
            norm_pos(s.last() as int, min0)
        } else {
            m
        }
    }
}

/// Whether some raw index normalizes to position `p`.
pub open spec fn covers(s: Seq<usize>, min0: int, p: int) -> bool {
    exists|j: int| 0 <= j < s.len() && norm_pos(#[trigger] s[j] as int, min0) == p
}

/// The number of positions strict mode demands: every one of
/// `1 ..= max(token_count, highest normalized index)`, with the token
/// count ignored when the verse has no tokens.
pub open spec fn expected_count(s: Seq<usize>, min0: int, token_count: int) -> int {
    if token_count == 0 {
        max_norm(s, min0)
    } else if token_count > max_norm(s, min0) {
        token_count
    } else {
        max_norm(s, min0)
    }
}

/// What the strict completeness check decides for a verse's morphology.
pub enum StrictCoverage {
    /// The verse has no morphology segments at all.
    NoMorphology,
    /// Segments exist but none declares a word index.
    NoIndices,
    /// A position in `1 ..= expected` is uncovered; the first one.
    Missing(usize),
    /// Every expected position is covered; how many there are.
    Complete(usize),
}

/// The declared word indices of a morphology list, in order.
pub open spec fn word_indices(es: Seq<MorphEntry>) -> Seq<usize>
    decreases es.len(),
{
    if es.len() == 0 {
        Seq::empty()
    } else {
        let rest = word_indices(es.drop_last());
        match es.last().word_index {
            Some(w) => rest.push(w),
            None => rest,
        }
    }
}

/// The strict completeness check over a verse's morphology list: no
/// segments and no declared indices are their own loud failures, and a
/// gap in `1 ..= expected` names its first missing position — partial
/// analysis must never be presented as complete.
pub fn strict_verse_coverage(morphology: &Vec<MorphEntry>, token_count: usize) -> (r:
    StrictCoverage)
    requires
        token_count < usize::MAX,
        forall|j: int|
            0 <= j < morphology@.len() ==> ((#[trigger] morphology@[j]).word_index matches Some(w)
                ==> w < usize::MAX - 1),
    ensures
        ({
            let raw = word_indices(morphology@);
            if morphology@.len() == 0 {
                r is NoMorphology
            } else if raw.len() == 0 {
                r is NoIndices
            } else {
                let min0 = min_of(raw);
                let expected = expected_count(raw, min0, token_count as int);
                match r {
                    StrictCoverage::Complete(e) => e == expected && forall|p: int|
                        1 <= p <= expected ==> covers(raw, min0, p),
                    StrictCoverage::Missing(p) => 1 <= p <= expected && !covers(
                        raw,
                        min0,
                        p as int,
                    ) && forall|q: int| 1 <= q < p ==> covers(raw, min0, q),
                    _ => false,
                }
            }
        }),
{
    if morphology.len() == 0 {
        return StrictCoverage::NoMorphology;
    }
    let ghost evs = morphology@;
    let mut raw: Vec<usize> = Vec::new();
    let mut i: usize = 0;
    proof {
        assert(evs.take(0) =~= Seq::<MorphEntry>::empty());
        assert(raw@ =~= word_indices(evs.take(0)));
    }
    while i < morphology.len()
        invariant
            i <= morphology@.len(),
            evs == morphology@,
            raw@ == word_indices(evs.take(i as int)),
            forall|j: int|
                0 <= j < morphology@.len() ==> ((#[trigger] morphology@[j]).word_index matches Some(
                    w,
                ) ==> w < usize::MAX - 1),
            forall|k: int| 0 <= k < raw@.len() ==> #[trigger] raw@[k] < usize::MAX - 1,
        decreases morphology@.len() - i,
    {
        proof {
            assert(evs.take(i + 1 as int).drop_last() =~= evs.take(i as int));
            assert(evs.take(i + 1 as int).last() == evs[i as int]);
        }
        match morphology[i].word_index {
            Some(w) => {
                raw.push(w);
            },
            None => {},
        }
        i = i + 1;
    }
    proof {
        assert(evs.take(morphology@.len() as int) =~= evs);
    }
    if raw.len() == 0 {
        return StrictCoverage::NoIndices;
    }
    match strict_coverage_check(&raw, token_count) {
        Ok(e) => StrictCoverage::Complete(e),
        Err(p) => StrictCoverage::Missing(p),
    }
}

/// The strict completeness check: partial analysis must never be
/// presented as complete.  Fails with the first uncovered position in
/// `1 ..= expected`, and succeeds exactly when every position is covered.
pub fn strict_coverage_check(raw: &Vec<usize>, token_count: usize) -> (r: Result<usize, usize>)
    requires
        raw@.len() > 0,
        forall|j: int| 0 <= j < raw@.len() ==> #[trigger] raw@[j] < usize::MAX - 1,
        token_count < usize::MAX,
    ensures
        ({
            let min0 = min_of(raw@);
            let expected = expected_count(raw@, min0, token_count as int);
            match r {
                Ok(e) => e == expected && forall|p: int| 1 <= p <= expected ==> covers(raw@, min0, p),
                Err(p) => 1 <= p <= expected && !covers(raw@, min0, p as int) && forall|q: int|
                    1 <= q < p ==> covers(raw@, min0, q),
            }
        }),
{
    let n = raw.len();
    // Smallest raw index.
    let mut mn: usize = raw[0];
    let mut i: usize = 1;
    proof {
        assert(raw@.take(1).drop_last() =~= Seq::<usize>::empty());
        assert(raw@.take(1) =~= seq![raw@[0]]);
        assert(min_of(raw@.take(1)) == raw@[0] as int);
    }
    while i < n
        invariant
            1 <= i <= n,
            n == raw@.len(),
            n > 0,
            mn as int == min_of(raw@.take(i as int)),
        decreases n - i,
    {
        proof {
            assert(raw@.take(i + 1 as int) =~= raw@.take(i as int).push(raw@[i as int]));
            assert(raw@.take(i + 1 as int).drop_last() =~= raw@.take(i as int));
        }
        if raw[i] < mn {
            mn = raw[i];
        }
        i = i + 1;
    }
    proof {
        assert(raw@.take(n as int) =~= raw@);
    }
    let zero_based = mn == 0;
    let ghost min0 = min_of(raw@);

    // Highest normalized index.
    let mut mx: usize = 0;
    let mut k: usize = 0;
    proof {
        assert(raw@.take(0) =~= Seq::<usize>::empty());
    }
    while k < n
        invariant
            k <= n,
            n == raw@.len(),
            forall|j: int| 0 <= j < raw@.len() ==> #[trigger] raw@[j] < usize::MAX - 1,
            zero_based == (min0 == 0),
            min0 == min_of(raw@),
            mx as int == max_norm(raw@.take(k as int), min0),
            mx < usize::MAX,
        decreases n - k,
    {
        proof {
            assert(raw@.take(k + 1 as int) =~= raw@.take(k as int).push(raw@[k as int]));
            assert(raw@.take(k + 1 as int).drop_last() =~= raw@.take(k as int));
        }
        let p = if zero_based {
            raw[k] + 1
        } else {
            raw[k]
        };
        if p > mx {
            mx = p;
        }
        k = k + 1;
    }
    proof {
        assert(raw@.take(n as int) =~= raw@);
    }
    let expected = if token_count == 0 {
        mx
    } else if token_count > mx {
        token_count
    } else {
        mx
    };

    // Scan for the first uncovered position.
    let mut p: usize = 1;
    while p <= expected
        invariant
            1 <= p,
            p <= expected + 1,
            n == raw@.len(),
            zero_based == (min0 == 0),
            min0 == min_of(raw@),
            forall|j: int| 0 <= j < raw@.len() ==> #[trigger] raw@[j] < usize::MAX - 1,
            expected as int == expected_count(raw@, min0, token_count as int),
            expected < usize::MAX,
            forall|q: int| 1 <= q < p ==> covers(raw@, min0, q),
        decreases expected + 1 - p,
    {
        let mut hit = false;
        let mut j: usize = 0;
        while j < n
            invariant
                j <= n,
                n == raw@.len(),
                zero_based == (min0 == 0),
                min0 == min_of(raw@),
                forall|m: int| 0 <= m < raw@.len() ==> #[trigger] raw@[m] < usize::MAX - 1,
                hit ==> covers(raw@, min0, p as int),
                !hit ==> forall|m: int|
                    0 <= m < j ==> norm_pos(#[trigger] raw@[m] as int, min0) != p,
            decreases n - j,
        {
            let q = if zero_based {
                raw[j] + 1
            } else {
                raw[j]
            };
            if q == p {
                hit = true;
                proof {
                    assert(norm_pos(raw@[j as int] as int, min0) == p);
                }
                j = n;
            } else {
                j = j + 1;
            }
        }
        if !hit {
            proof {
                if covers(raw@, min0, p as int) {
                    let m = choose|m: int|
                        0 <= m < raw@.len() && norm_pos(#[trigger] raw@[m] as int, min0)
                            == p;
                    assert(false);
                }
            }
            return Err(p);
        }
        p = p + 1;
    }
    Ok(expected)
}

} // verus!
