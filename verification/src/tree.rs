//! The tree renderer: aligns morphology segments to the word positions of
//! the verse's own text and renders a nested Clause - Phrase - Word -
//! Prefix/Stem text tree with grammar detail lines.

use vstd::prelude::*;
use crate::consolidate::MorphEntry;
use crate::text::{chars_of, concat_chars, contains_seq, lower_seq, sep_split, string_of, trimmed,
    upper_seq, ws_words};

verus! {

// ----- feature strings ----------------------------------------------------

/// The pieces of a `key:value | key:value` feature string: parts split at
/// every bar and trimmed, and each part cut at its first colon.
pub open spec fn feat_pair(part: Seq<char>) -> Option<(Seq<char>, Seq<char>)> {
    let p = trimmed(part);
    let k = crate::text::nosep_run(p, ':') as int;
    if k == p.len() {
        None
    } else {
        Some((p.take(k), p.skip(k + 1)))
    }
}

/// The first nonempty value under a key in a feature string.
pub open spec fn feat_first(parts: Seq<Seq<char>>, key: Seq<char>) -> Option<Seq<char>>
    decreases parts.len(),
{
    if parts.len() == 0 {
        None
    } else {
        match feat_pair(parts[0]) {
            Some(kv) => if kv.0 == key && kv.1.len() > 0 {
                Some(kv.1)
            } else {
                feat_first(parts.skip(1), key)
            },
            None => feat_first(parts.skip(1), key),
        }
    }
}

/// The last nonempty value under a key in a feature string.
pub open spec fn feat_last(parts: Seq<Seq<char>>, key: Seq<char>) -> Option<Seq<char>>
    decreases parts.len(),
{
    if parts.len() == 0 {
        None
    } else {
        match feat_pair(parts.last()) {
            Some(kv) => if kv.0 == key && kv.1.len() > 0 {
                Some(kv.1)
            } else {
                feat_last(parts.drop_last(), key)
            },
            None => feat_last(parts.drop_last(), key),
        }
    }
}

pub open spec fn feat_parts(features: Seq<char>) -> Seq<Seq<char>> {
    sep_split(features, '|')
}

/// Looks the last value of a key up in a feature string.
pub fn feat_last_exec(features: &Vec<char>, key: &str) -> (r: Option<Vec<char>>)
    ensures
        match r {
            Some(v) => feat_last(feat_parts(features@), key@) == Some(v@),
            None => feat_last(feat_parts(features@), key@) is None,
        },
{
    let parts = crate::text::split_on(features, '|');
    let kv = chars_of(key);
    let n = parts.len();
    let mut i: usize = n;
    proof {
        assert(feat_parts(features@).take(n as int) =~= feat_parts(features@));
    }
    while i > 0
        invariant
            i <= n,
            n == feat_parts(features@).len(),
            kv@ == key@,
            forall|j: int|
                0 <= j < parts@.len() ==> #[trigger] parts@[j]@ == feat_parts(features@)[j],
            parts@.len() == n,
            feat_last(feat_parts(features@), key@) == feat_last(
                feat_parts(features@).take(i as int),
                key@,
            ),
        decreases i,
    {
        i = i - 1;
        proof {
            assert(feat_parts(features@).take(i + 1 as int).drop_last() =~= feat_parts(
                features@,
            ).take(i as int));
            assert(feat_parts(features@).take(i + 1 as int).last() == feat_parts(features@)[i as int]);
        }
        let p = crate::text::trim_chars(&parts[i]);
        // Cut at the first colon.
        let mut c: usize = 0;
        proof {
            assert(crate::text::nosep_run(p@.skip(0), ':') == crate::text::nosep_run(p@, ':'))
                by {
                assert(p@.skip(0) =~= p@);
            }
        }
        while c < p.len() && p[c] != ':'
            invariant
                c <= p@.len(),
                crate::text::nosep_run(p@, ':') == c + crate::text::nosep_run(
                    p@.skip(c as int),
                    ':',
                ),
            decreases p@.len() - c,
        {
            proof {
                assert(p@.skip(c as int)[0] == p@[c as int]);
                assert(crate::text::nosep_run(p@.skip(c as int), ':') == 1
                    + crate::text::nosep_run(p@.skip(c as int).skip(1), ':'));
                assert(p@.skip(c as int).skip(1) =~= p@.skip(c + 1 as int));
            }
            c = c + 1;
        }
        proof {
            if c < p.len() {
                assert(p@.skip(c as int)[0] == p@[c as int]);
            } else {
                assert(p@.skip(c as int).len() == 0);
            }
            assert(crate::text::nosep_run(p@.skip(c as int), ':') == 0);
            assert(crate::text::nosep_run(p@, ':') == c);
        }
        if c < p.len() {
            let pk = crate::text::sub_chars(&p, 0, c);
            let pv = crate::text::sub_chars(&p, c + 1, p.len());
            proof {
                assert(pk@ =~= p@.take(c as int));
                assert(pv@ =~= p@.skip(c + 1 as int));
            }
            if crate::text::chars_eq(&pk, &kv) && pv.len() > 0 {
                return Some(pv);
            }
        }
    }
    proof {
        assert(feat_parts(features@).take(0) =~= Seq::<Seq<char>>::empty());
    }
    None
}

/// Looks the first value of a key up in a feature string.
pub fn feat_first_exec(features: &Vec<char>, key: &str) -> (r: Option<Vec<char>>)
    ensures
        match r {
            Some(v) => feat_first(feat_parts(features@), key@) == Some(v@),
            None => feat_first(feat_parts(features@), key@) is None,
        },
{
    let parts = crate::text::split_on(features, '|');
    let kv = chars_of(key);
    let n = parts.len();
    let mut i: usize = 0;
    proof {
        assert(feat_parts(features@).skip(0) =~= feat_parts(features@));
    }
    while i < n
        invariant
            i <= n,
            n == feat_parts(features@).len(),
            kv@ == key@,
            forall|j: int|
                0 <= j < parts@.len() ==> #[trigger] parts@[j]@ == feat_parts(features@)[j],
            parts@.len() == n,
            feat_first(feat_parts(features@), key@) == feat_first(
                feat_parts(features@).skip(i as int),
                key@,
            ),
        decreases n - i,
    {
        proof {
            assert(feat_parts(features@).skip(i as int)[0] == feat_parts(features@)[i as int]);
            assert(feat_parts(features@).skip(i as int).skip(1) =~= feat_parts(features@).skip(
                i + 1 as int,
            ));
        }
        let p = crate::text::trim_chars(&parts[i]);
        let mut c: usize = 0;
        proof {
            assert(crate::text::nosep_run(p@.skip(0), ':') == crate::text::nosep_run(p@, ':'))
                by {
                assert(p@.skip(0) =~= p@);
            }
        }
        while c < p.len() && p[c] != ':'
            invariant
                c <= p@.len(),
                crate::text::nosep_run(p@, ':') == c + crate::text::nosep_run(
                    p@.skip(c as int),
                    ':',
                ),
            decreases p@.len() - c,
        {
            proof {
                assert(p@.skip(c as int)[0] == p@[c as int]);
                assert(crate::text::nosep_run(p@.skip(c as int), ':') == 1
                    + crate::text::nosep_run(p@.skip(c as int).skip(1), ':'));
                assert(p@.skip(c as int).skip(1) =~= p@.skip(c + 1 as int));
            }
            c = c + 1;
        }
        proof {
            if c < p.len() {
                assert(p@.skip(c as int)[0] == p@[c as int]);
            } else {
                assert(p@.skip(c as int).len() == 0);
            }
            assert(crate::text::nosep_run(p@, ':') == c);
        }
        if c < p.len() {
            let pk = crate::text::sub_chars(&p, 0, c);
            let pv = crate::text::sub_chars(&p, c + 1, p.len());
            proof {
                assert(pk@ =~= p@.take(c as int));
                assert(pv@ =~= p@.skip(c + 1 as int));
            }
            if crate::text::chars_eq(&pk, &kv) && pv.len() > 0 {
                return Some(pv);
            }
        }
        i = i + 1;
    }
    proof {
        assert(feat_parts(features@).skip(n as int).len() == 0);
    }
    None
}

// ----- the long part-of-speech form ---------------------------------------

/// Title-casing of one nonempty word already in upper case: the first
/// letter stays, the rest fold to lower case.
pub open spec fn title_word(w: Seq<char>) -> Seq<char> {
    seq![w[0]] + lower_seq(w.skip(1))
}

/// The words joined with single spaces.
pub open spec fn join_sp(ws: Seq<Seq<char>>) -> Seq<char>
    decreases ws.len(),
{
    if ws.len() == 0 {
        Seq::empty()
    } else if ws.len() == 1 {
        ws[0]
    } else {
        join_sp(ws.drop_last()) + " "@ + ws.last()
    }
}

/// The long form of a part-of-speech tag: a fixed abbreviation table,
/// falling back to a title-cased rendering of an unknown tag.
pub open spec fn pos_long(tag: Seq<char>) -> Seq<char> {
    let upper = upper_seq(trimmed(tag));
    if upper == "DET"@ {
        "Determiner ("@ + tag + ")"@
    } else if upper == "PREP"@ {
        "Preposition ("@ + tag + ")"@
    } else if upper == "NOUN"@ {
        "Noun ("@ + tag + ")"@
    } else if upper == "PROP-NOUN"@ || upper == "PROPN"@ {
        "Proper Noun ("@ + tag + ")"@
    } else if upper == "ADJ"@ {
        "Adjective ("@ + tag + ")"@
    } else if upper == "VERB"@ || upper == "V"@ {
        "Verb ("@ + tag + ")"@
    } else if upper == "ADV"@ {
        "Adverb ("@ + tag + ")"@
    } else if upper == "PRON"@ {
        "Pronoun ("@ + tag + ")"@
    } else if upper == "CONJ"@ {
        "Conjunction ("@ + tag + ")"@
    } else if upper == "PART"@ {
        "Particle ("@ + tag + ")"@
    } else if upper == "NUM"@ {
        "Numeral ("@ + tag + ")"@
    } else if upper == "INTERJ"@ {
        "Interjection ("@ + tag + ")"@
    } else {
        let cleaned = upper.map_values(
            |c: char|
                if c == '_' || c == '-' {
                    ' '
                } else {
                    c
                },
        );
        let titled = join_sp(ws_words(cleaned).map_values(|w: Seq<char>| title_word(w)));
        if titled.len() == 0 {
            tag
        } else {
            titled
        }
    }
}

/// Renders the long form of a part-of-speech tag.
pub fn pos_long_form(tag: &str) -> (r: String)
    ensures
        r@ == pos_long(tag@),
{
    let tv = chars_of(tag);
    let tt = crate::text::trim_chars(&tv);
    let upper = crate::text::upper_chars(&tt);
    let fixed: Option<&str> = if crate::text::chars_eq_str(&upper, "DET") {
        Some("Determiner (")
    } else if crate::text::chars_eq_str(&upper, "PREP") {
        Some("Preposition (")
    } else if crate::text::chars_eq_str(&upper, "NOUN") {
        Some("Noun (")
    } else if crate::text::chars_eq_str(&upper, "PROP-NOUN") || crate::text::chars_eq_str(
        &upper,
        "PROPN",
    ) {
        Some("Proper Noun (")
    } else if crate::text::chars_eq_str(&upper, "ADJ") {
        Some("Adjective (")
    } else if crate::text::chars_eq_str(&upper, "VERB") || crate::text::chars_eq_str(&upper, "V") {
        Some("Verb (")
    } else if crate::text::chars_eq_str(&upper, "ADV") {
        Some("Adverb (")
    } else if crate::text::chars_eq_str(&upper, "PRON") {
        Some("Pronoun (")
    } else if crate::text::chars_eq_str(&upper, "CONJ") {
        Some("Conjunction (")
    } else if crate::text::chars_eq_str(&upper, "PART") {
        Some("Particle (")
    } else if crate::text::chars_eq_str(&upper, "NUM") {
        Some("Numeral (")
    } else if crate::text::chars_eq_str(&upper, "INTERJ") {
        Some("Interjection (")
    } else {
        None
    };
    match fixed {
        Some(prefix) => {
            let a = chars_of(prefix);
            let b = chars_of(")");
            let ab = concat_chars(&a, &tv);
            let abc = concat_chars(&ab, &b);
            string_of(&abc)
        },
        None => {
            // Replace separators with spaces, then title-case each word.
            let mut cleaned: Vec<char> = Vec::new();
            let mut i: usize = 0;
            let ghost cspec = upper@.map_values(
                |c: char|
                    if c == '_' || c == '-' {
                        ' '
                    } else {
                        c
                    },
            );
            while i < upper.len()
                invariant
                    i <= upper@.len(),
                    cspec == upper@.map_values(
                        |c: char|
                            if c == '_' || c == '-' {
                                ' '
                            } else {
                                c
                            },
                    ),
                    cleaned@.len() == i,
                    forall|k: int| 0 <= k < i ==> cleaned@[k] == cspec[k],
                decreases upper@.len() - i,
            {
                let c = upper[i];
                if c == '_' || c == '-' {
                    cleaned.push(' ');
                } else {
                    cleaned.push(c);
                }
                i = i + 1;
            }
            proof {
                assert(cleaned@ =~= cspec);
            }
            let words = crate::text::split_words(&cleaned);
            let mut titled: Vec<char> = Vec::new();
            let mut w: usize = 0;
            let ghost wviews = ws_words(cspec).map_values(|x: Seq<char>| title_word(x));
            proof {
                assert(wviews.take(0) =~= Seq::<Seq<char>>::empty());
            }
            while w < words.len()
                invariant
                    w <= words@.len(),
                    words@.len() == ws_words(cspec).len(),
                    forall|k: int|
                        0 <= k < words@.len() ==> #[trigger] words@[k]@ == ws_words(cspec)[k],
                    wviews == ws_words(cspec).map_values(|x: Seq<char>| title_word(x)),
                    titled@ == join_sp(wviews.take(w as int)),
                decreases words@.len() - w,
            {
                proof {
                    assert(wviews.take(w + 1 as int).drop_last() =~= wviews.take(w as int));
                    assert(wviews.take(w + 1 as int).last() == wviews[w as int]);
                    crate::text::lemma_word_run_shape(cspec);
                }
                let word = &words[w];
                proof {
                    lemma_ws_word_nonempty(cspec, w as int);
                }
                let rest = crate::text::sub_chars(word, 1, word.len());
                let lowered = crate::text::lower_chars(&rest);
                let mut piece: Vec<char> = Vec::new();
                piece.push(word[0]);
                let piece2 = concat_chars(&piece, &lowered);
                proof {
                    assert(piece@ =~= seq![word@[0]]);
                    assert(rest@ =~= word@.skip(1));
                    assert(piece2@ =~= title_word(words@[w as int]@));
                }
                if w == 0 {
                    titled = piece2;
                    proof {
                        assert(wviews.take(1) =~= seq![wviews[0]]);
                        assert(join_sp(wviews.take(1)) == wviews[0]);
                    }
                } else {
                    let sp = chars_of(" ");
                    let t1 = concat_chars(&titled, &sp);
                    let t2 = concat_chars(&t1, &piece2);
                    titled = t2;
                }
                w = w + 1;
            }
            proof {
                assert(wviews.take(words@.len() as int) =~= wviews);
            }
            if titled.len() == 0 {
                tag.to_owned()
            } else {
                string_of(&titled)
            }
        },
    }
}

// ----- alignment ----------------------------------------------------------

/// One rendered segment: its kind (prefix or stem), surface text and
/// grammar detail lines.
pub struct SegmentRender {
    pub is_prefix: bool,
    pub text: String,
    pub details: Vec<String>,
}

/// A rendered segment by value.
pub ghost struct SegR {
    pub is_prefix: bool,
    pub text: Seq<char>,
    pub details: Seq<Seq<char>>,
}

pub open spec fn segr_v(s: SegmentRender) -> SegR {
    SegR {
        is_prefix: s.is_prefix,
        text: s.text@,
        details: s.details@.map_values(|d: String| d@),
    }
}

/// The lowercased segment kind.
pub open spec fn seg_kind(e: MorphEntry) -> Seq<char> {
    match e.type_ {
        Some(t) => lower_seq(t@),
        None => Seq::empty(),
    }
}

pub open spec fn feats_of(e: MorphEntry) -> Seq<Seq<char>> {
    match e.features {
        Some(f) => feat_parts(f@),
        None => Seq::empty(),
    }
}

/// The detail lines of one segment, in the fixed order: part of speech,
/// role, case, inflection, grammar state, root — each only when present.
pub open spec fn details_of(e: MorphEntry) -> Seq<Seq<char>> {
    let d0 = Seq::<Seq<char>>::empty();
    let d1 = match e.pos {
        Some(p) => if p@.len() > 0 {
            d0.push("POS: "@ + pos_long(p@))
        } else {
            d0
        },
        None => d0,
    };
    let d2 = match e.role {
        Some(x) => if x@.len() > 0 {
            d1.push("Role: "@ + x@)
        } else {
            d1
        },
        None => d1,
    };
    let d3 = match e.case_ {
        Some(x) => if x@.len() > 0 {
            d2.push("Case: "@ + x@)
        } else {
            d2
        },
        None => d2,
    };
    let d4 = match feat_last(feats_of(e), "invar"@) {
        Some(x) => d3.push("Inflection: "@ + x),
        None => d3,
    };
    let d5 = match feat_last(feats_of(e), "poss"@) {
        Some(x) => d4.push("Grammar: "@ + x),
        None => d4,
    };
    match e.root {
        Some(x) => if x@.len() > 0 {
            d5.push("Root: "@ + x@)
        } else {
            d5
        },
        None => d5,
    }
}

pub open spec fn seg_render(e: MorphEntry) -> SegR {
    SegR {
        is_prefix: contains_seq(seg_kind(e), "prefix"@),
        text: e.text@,
        details: details_of(e),
    }
}

/// The word position a segment lands on: its declared one-based index
/// when in range, else the cursor clamped into range; zero means the
/// segment is dropped.
pub open spec fn assign_idx(e: MorphEntry, cursor: int, nword: int) -> int {
    let declared: int = match e.word_index {
        Some(w) => if 1 <= w <= nword {
            w as int
        } else {
            0
        },
        None => 0,
    };
    if declared != 0 {
        declared
    } else {
        let c = if cursor < nword {
            cursor
        } else {
            nword
        };
        let c1 = if c < 1 {
            1
        } else {
            c
        };
        if c1 <= nword {
            c1
        } else {
            0
        }
    }
}

/// One alignment step: group the segment under its word, and advance the
/// cursor past a stem.
pub open spec fn align_step(nodes: Seq<Seq<SegR>>, cursor: int, e: MorphEntry) -> (
    Seq<Seq<SegR>>,
    int,
) {
    let nword = nodes.len() as int;
    let idx = assign_idx(e, cursor, nword);
    if 1 <= idx <= nword {
        let nodes2 = nodes.update(idx - 1, nodes[idx - 1].push(seg_render(e)));
        let cursor2 = if contains_seq(seg_kind(e), "stem"@) && idx >= cursor {
            if idx + 1 < nword {
                idx + 1
            } else {
                nword
            }
        } else {
            cursor
        };
        (nodes2, cursor2)
    } else {
        (nodes, cursor)
    }
}

pub open spec fn align_fold(nodes: Seq<Seq<SegR>>, cursor: int, es: Seq<MorphEntry>) -> (
    Seq<Seq<SegR>>,
    int,
)
    decreases es.len(),
{
    if es.len() == 0 {
        (nodes, cursor)
    } else {
        let p = align_fold(nodes, cursor, es.drop_last());
        align_step(p.0, p.1, es.last())
    }
}

pub open spec fn blank_nodes(n: nat) -> Seq<Seq<SegR>> {
    Seq::new(n, |k: int| Seq::<SegR>::empty())
}

/// The segments grouped under each of `n` word positions, in arrival
/// order, after walking the source segments once with the cursor rule.
pub open spec fn aligned(n: nat, es: Seq<MorphEntry>) -> Seq<Seq<SegR>> {
    align_fold(blank_nodes(n), 1, es).0
}

/// The phrase label: the first nonempty `phrase:` feature over all
/// segments.
pub open spec fn phrase_label_of(es: Seq<MorphEntry>) -> Option<Seq<char>>
    decreases es.len(),
{
    if es.len() == 0 {
        None
    } else {
        match feat_first(feats_of(es[0]), "phrase"@) {
            Some(v) => Some(v),
            None => phrase_label_of(es.skip(1)),
        }
    }
}

/// The phrase function: the first nonempty `phrase_fn:` feature over all
/// segments.
pub open spec fn phrase_role_of(es: Seq<MorphEntry>) -> Option<Seq<char>>
    decreases es.len(),
{
    if es.len() == 0 {
        None
    } else {
        match feat_first(feats_of(es[0]), "phrase_fn"@) {
            Some(v) => Some(v),
            None => phrase_role_of(es.skip(1)),
        }
    }
}

/// Builds the detail lines of one segment.
fn details_exec(e: &MorphEntry) -> (r: Vec<String>)
    ensures
        r@.map_values(|d: String| d@) == details_of(*e),
{
    let mut out: Vec<String> = Vec::new();
    match &e.pos {
        Some(p) => {
            if p.as_str().is_empty() {
            } else {
                let long = pos_long_form(p.as_str());
                let a = chars_of("POS: ");
                let b = chars_of(long.as_str());
                let ab = concat_chars(&a, &b);
                out.push(string_of(&ab));
                proof {
                    assert(out@.map_values(|d: String| d@) =~= Seq::<Seq<char>>::empty().push(
                        "POS: "@ + pos_long(p@),
                    ));
                }
            }
        },
        None => {},
    }
    let ghost d1 = out@.map_values(|d: String| d@);
    match &e.role {
        Some(x) => {
            if x.as_str().is_empty() {
            } else {
                let a = chars_of("Role: ");
                let b = chars_of(x.as_str());
                let ab = concat_chars(&a, &b);
                out.push(string_of(&ab));
                proof {
                    assert(out@.map_values(|d: String| d@) =~= d1.push("Role: "@ + x@));
                }
            }
        },
        None => {},
    }
    let ghost d2 = out@.map_values(|d: String| d@);
    match &e.case_ {
        Some(x) => {
            if x.as_str().is_empty() {
            } else {
                let a = chars_of("Case: ");
                let b = chars_of(x.as_str());
                let ab = concat_chars(&a, &b);
                out.push(string_of(&ab));
                proof {
                    assert(out@.map_values(|d: String| d@) =~= d2.push("Case: "@ + x@));
                }
            }
        },
        None => {},
    }
    let ghost d3 = out@.map_values(|d: String| d@);
    let feats: Vec<char> = match &e.features {
        Some(f) => chars_of(f.as_str()),
        None => Vec::new(),
    };
    let has_feats = e.features.is_some();
    proof {
        if has_feats {
            assert(feat_parts(feats@) == feats_of(*e));
        }
    }
    if has_feats {
        match feat_last_exec(&feats, "invar") {
            Some(v) => {
                let a = chars_of("Inflection: ");
                let ab = concat_chars(&a, &v);
                out.push(string_of(&ab));
                proof {
                    assert(out@.map_values(|d: String| d@) =~= d3.push(
                        "Inflection: "@ + v@,
                    ));
                }
            },
            None => {},
        }
    }
    let ghost d4 = out@.map_values(|d: String| d@);
    if has_feats {
        match feat_last_exec(&feats, "poss") {
            Some(v) => {
                let a = chars_of("Grammar: ");
                let ab = concat_chars(&a, &v);
                out.push(string_of(&ab));
                proof {
                    assert(out@.map_values(|d: String| d@) =~= d4.push("Grammar: "@ + v@));
                }
            },
            None => {},
        }
    }
    let ghost d5 = out@.map_values(|d: String| d@);
    match &e.root {
        Some(x) => {
            if x.as_str().is_empty() {
            } else {
                let a = chars_of("Root: ");
                let b = chars_of(x.as_str());
                let ab = concat_chars(&a, &b);
                out.push(string_of(&ab));
                proof {
                    assert(out@.map_values(|d: String| d@) =~= d5.push("Root: "@ + x@));
                }
            }
        },
        None => {},
    }
    proof {
        if !has_feats {
            assert(feats_of(*e) =~= Seq::<Seq<char>>::empty());
        }
    }
    out
}

/// Builds the rendered segment of one morphology entry.
fn seg_render_exec(e: &MorphEntry) -> (r: SegmentRender)
    ensures
        segr_v(r) == seg_render(*e),
{
    let kind: Vec<char> = match &e.type_ {
        Some(t) => crate::text::lower_chars(&chars_of(t.as_str())),
        None => Vec::new(),
    };
    proof {
        assert(kind@ == seg_kind(*e));
    }
    let needle = chars_of("prefix");
    SegmentRender {
        is_prefix: crate::text::chars_contain(&kind, &needle),
        text: e.text.clone(),
        details: details_exec(e),
    }
}

/// Groups the segments of a verse under its word positions: each segment
/// lands on its declared one-based word index when in range, else on the
/// cursor position, which advances past every stem; arrival order is kept
/// within a word.
pub fn align_segments(word_count: usize, segments: &Vec<MorphEntry>) -> (r: Vec<
    Vec<SegmentRender>,
>)
    ensures
        r@.len() == word_count,
        r@.map_values(|n: Vec<SegmentRender>| n@.map_values(|s: SegmentRender| segr_v(s)))
            == aligned(word_count as nat, segments@),
{
    let mut nodes: Vec<Vec<SegmentRender>> = Vec::new();
    let mut w: usize = 0;
    while w < word_count
        invariant
            w <= word_count,
            nodes@.len() == w,
            forall|k: int| 0 <= k < w ==> (#[trigger] nodes@[k])@.len() == 0,
        decreases word_count - w,
    {
        nodes.push(Vec::new());
        w = w + 1;
    }
    proof {
        assert(nodes@.map_values(
            |n: Vec<SegmentRender>| n@.map_values(|s: SegmentRender| segr_v(s)),
        ) =~~= blank_nodes(word_count as nat));
    }
    let mut cursor: usize = 1;
    let mut i: usize = 0;
    proof {
        assert(segments@.take(0) =~= Seq::<MorphEntry>::empty());
    }
    while i < segments.len()
        invariant
            i <= segments@.len(),
            nodes@.len() == word_count,
            1 <= cursor,
            cursor <= word_count || cursor == 1,
            ({
                let p = align_fold(blank_nodes(word_count as nat), 1, segments@.take(i as int));
                &&& nodes@.map_values(
                    |n: Vec<SegmentRender>| n@.map_values(|s: SegmentRender| segr_v(s)),
                ) == p.0
                &&& cursor as int == p.1
            }),
        decreases segments@.len() - i,
    {
        proof {
            assert(segments@.take(i + 1 as int).drop_last() =~= segments@.take(i as int));
            assert(segments@.take(i + 1 as int).last() == segments@[i as int]);
        }
        let e = &segments[i];
        let declared: usize = match e.word_index {
            Some(wd) => if 1 <= wd && wd <= word_count {
                wd
            } else {
                0
            },
            None => 0,
        };
        let idx: usize = if declared != 0 {
            declared
        } else {
            let c = if cursor < word_count {
                cursor
            } else {
                word_count
            };
            let c1 = if c < 1 {
                1
            } else {
                c
            };
            if c1 <= word_count {
                c1
            } else {
                0
            }
        };
        proof {
            assert(idx as int == assign_idx(
                segments@[i as int],
                cursor as int,
                word_count as int,
            ));
        }
        if 1 <= idx && idx <= word_count {
            let ghost pre_nodes = nodes@.map_values(
                |n: Vec<SegmentRender>| n@.map_values(|s: SegmentRender| segr_v(s)),
            );
            let sr = seg_render_exec(e);
            let kind: Vec<char> = match &e.type_ {
                Some(t) => crate::text::lower_chars(&chars_of(t.as_str())),
                None => Vec::new(),
            };
            let slot = &mut nodes[idx - 1];
            slot.push(sr);
            proof {
                assert(nodes@.map_values(
                    |n: Vec<SegmentRender>| n@.map_values(|s: SegmentRender| segr_v(s)),
                ) =~~= pre_nodes.update(
                    idx - 1 as int,
                    pre_nodes[idx - 1 as int].push(seg_render(segments@[i as int])),
                ));
            }
            let needle = chars_of("stem");
            if crate::text::chars_contain(&kind, &needle) && idx >= cursor {
                cursor = if idx < word_count {
                    idx + 1
                } else {
                    word_count
                };
            }
        }
        i = i + 1;
    }
    proof {
        assert(segments@.take(segments@.len() as int) =~= segments@);
    }
    nodes
}

/// Tree alignment: when every segment declares an in-range word index,
/// each word position receives exactly the segments that declared it, in
/// arrival order — the "Word i" groups of the rendered tree follow the
/// declared indices, each child list in source order.
pub proof fn lemma_tree_alignment(n: nat, es: Seq<MorphEntry>)
    requires
        forall|i: int|
            0 <= i < es.len() ==> ((#[trigger] es[i]).word_index matches Some(w) && 1 <= w <= n),
    ensures
        aligned(n, es).len() == n,
        forall|w: int|
            0 <= w < n ==> #[trigger] aligned(n, es)[w] == declared_segs(es, w + 1),
    decreases es.len(),
{
    if es.len() == 0 {
        assert forall|w: int| 0 <= w < n implies #[trigger] aligned(n, es)[w] == declared_segs(
            es,
            w + 1,
        ) by {
            assert(declared_segs(es, w + 1) =~= Seq::<SegR>::empty());
        }
    } else {
        let es0 = es.drop_last();
        assert(forall|i: int|
            0 <= i < es0.len() ==> #[trigger] es0[i] == es[i]);
        lemma_tree_alignment(n, es0);
        let e = es.last();
        let p = align_fold(blank_nodes(n), 1, es0);
        let w0 = e.word_index.unwrap() as int;
        assert(assign_idx(e, p.1, n as int) == w0);
        assert forall|w: int| 0 <= w < n implies #[trigger] aligned(n, es)[w] == declared_segs(
            es,
            w + 1,
        ) by {
            lemma_declared_snoc(es, w + 1);
            assert(aligned(n, es0)[w] == declared_segs(es0, w + 1));
        }
    }
}

/// The segments that declare word position `w`, in source order.
pub open spec fn declared_segs(es: Seq<MorphEntry>, w: int) -> Seq<SegR>
    decreases es.len(),
{
    if es.len() == 0 {
        Seq::empty()
    } else {
        let rest = declared_segs(es.drop_last(), w);
        if es.last().word_index matches Some(d) && d as int == w {
            rest.push(seg_render(es.last()))
        } else {
            rest
        }
    }
}

proof fn lemma_declared_snoc(es: Seq<MorphEntry>, w: int)
    requires
        es.len() > 0,
    ensures
        declared_segs(es, w) == (if es.last().word_index matches Some(d) && d as int == w {
            declared_segs(es.drop_last(), w).push(seg_render(es.last()))
        } else {
            declared_segs(es.drop_last(), w)
        }),
{
}

// ----- rendering ----------------------------------------------------------

/// A phrase label or function with its fixed gloss appended, when one
/// exists for the value.
pub open spec fn glossed(v: Option<Seq<char>>, arabic: Seq<char>, gloss: Seq<char>) -> Option<
    Seq<char>,
> {
    match v {
        Some(x) => if x == arabic {
            Some(x + " ("@ + gloss + ")"@)
        } else {
            Some(x)
        },
        None => None,
    }
}

pub open spec fn phrase_line(ph: Option<Seq<char>>, rl: Option<Seq<char>>) -> Seq<char> {
    match (ph, rl) {
        (Some(p), Some(r)) => "└─ Phrase: "@ + p + " | Role: "@ + r + "\n"@,
        (Some(p), None) => "└─ Phrase: "@ + p + "\n"@,
        (None, Some(r)) => "└─ Phrase | Role: "@ + r + "\n"@,
        (None, None) => "└─ Phrase\n"@,
    }
}

/// The detail lines of one segment, each indented and newline-terminated.
pub open spec fn det_lines(details: Seq<Seq<char>>, indent: Seq<char>) -> Seq<char>
    decreases details.len(),
{
    if details.len() == 0 {
        Seq::empty()
    } else {
        det_lines(details.drop_last(), indent) + indent + details.last() + "\n"@
    }
}

/// One segment's lines: the connector line and its details.
pub open spec fn seg_block(seg: SegR, mid: Seq<char>, is_last_seg: bool) -> Seq<char> {
    let connector = if is_last_seg {
        "└─"@
    } else {
        "├─"@
    };
    let label = if seg.is_prefix {
        "Prefix"@
    } else {
        "Stem"@
    };
    let indent = if is_last_seg {
        mid + "    "@
    } else {
        mid + "│   "@
    };
    mid + connector + " "@ + label + ": "@ + seg.text + "\n"@ + det_lines(seg.details, indent)
}

pub open spec fn segs_upto(segs: Seq<SegR>, mid: Seq<char>, j: int) -> Seq<char>
    decreases j,
{
    if j <= 0 {
        Seq::empty()
    } else {
        segs_upto(segs, mid, j - 1) + seg_block(segs[j - 1], mid, j == segs.len())
    }
}

/// One word's lines: the `Word i` line and its segments.
pub open spec fn word_block(k: int, total: int, surface: Seq<char>, segs: Seq<SegR>) -> Seq<
    char,
> {
    let last_word = k + 1 == total;
    let wp = if last_word {
        "   └─"@
    } else {
        "   ├─"@
    };
    let mid = if last_word {
        "      "@
    } else {
        "   │   "@
    };
    wp + " Word "@ + crate::num::dec_rep((k + 1) as nat) + ": "@ + surface + "\n"@ + segs_upto(
        segs,
        mid,
        segs.len() as int,
    )
}

pub open spec fn words_upto(
    words: Seq<Seq<char>>,
    nodes: Seq<Seq<SegR>>,
    total: int,
    k: int,
) -> Seq<char>
    decreases k,
{
    if k <= 0 {
        Seq::empty()
    } else {
        words_upto(words, nodes, total, k - 1) + word_block(k - 1, total, words[k - 1], nodes[k
            - 1])
    }
}

/// The word surfaces the tree anchors to: the verse text's own
/// whitespace-split words, falling back to the raw tokens' surfaces when
/// the text is empty.
pub open spec fn word_surfaces(verse: crate::consolidate::VerseInput) -> Seq<Seq<char>> {
    let tw = ws_words(verse.text@);
    if tw.len() == 0 && verse.tokens@.len() > 0 {
        verse.tokens@.map_values(|t: crate::consolidate::VerseTokenInput| crate::consolidate::base_text(t))
    } else {
        tw
    }
}

/// The whole rendered tree of a verse.
pub open spec fn tree_display(verse: crate::consolidate::VerseInput, es: Seq<MorphEntry>) -> Seq<
    char,
> {
    let words = word_surfaces(verse);
    let nodes = aligned(words.len(), es);
    let ph = glossed(
        phrase_label_of(es),
        "\u{634}\u{628}\u{647} \u{62c}\u{645}\u{644}\u{629}"@,
        "Semi-Sentence"@,
    );
    let rl = glossed(phrase_role_of(es), "\u{62e}\u{628}\u{631}"@, "Predicate"@);
    "Clause (Sentence)\n"@ + phrase_line(ph, rl) + words_upto(
        words,
        nodes,
        words.len() as int,
        words.len() as int,
    )
}

/// Applies a fixed gloss when the value matches.
fn gloss_exec(v: Option<Vec<char>>, arabic: &str, gloss: &str) -> (r: Option<Vec<char>>)
    ensures
        match (r, v) {
            (Some(rv), Some(vv)) => Some(rv@) == glossed(Some(vv@), arabic@, gloss@),
            (None, None) => true,
            _ => false,
        },
{
    match v {
        Some(x) => {
            let av = chars_of(arabic);
            if crate::text::chars_eq(&x, &av) {
                let a = chars_of(" (");
                let g = chars_of(gloss);
                let b = chars_of(")");
                let p1 = concat_chars(&x, &a);
                let p2 = concat_chars(&p1, &g);
                let p3 = concat_chars(&p2, &b);
                Some(p3)
            } else {
                Some(x)
            }
        },
        None => None,
    }
}

/// Renders the nested Clause - Phrase - Word - Prefix/Stem tree of a
/// verse: word boundaries anchor to the verse's own text, segments group
/// under their declared or cursor-assigned word, and detail lines follow
/// each segment.
pub fn build_tree_display(
    verse: &crate::consolidate::VerseInput,
    segments: &Vec<MorphEntry>,
) -> (r: String)
    ensures
        r@ == tree_display(*verse, segments@),
{
    // Word surfaces.
    let text_words = crate::text::split_words(&chars_of(verse.text.as_str()));
    let mut words: Vec<Vec<char>> = text_words;
    if words.len() == 0 && verse.tokens.len() > 0 {
        let mut tw: Vec<Vec<char>> = Vec::new();
        let mut t: usize = 0;
        while t < verse.tokens.len()
            invariant
                t <= verse.tokens@.len(),
                tw@.len() == t,
                forall|k: int|
                    0 <= k < t ==> #[trigger] tw@[k]@ == crate::consolidate::base_text(
                        verse.tokens@[k],
                    ),
            decreases verse.tokens@.len() - t,
        {
            let tk = &verse.tokens[t];
            let bt: Vec<char> = match &tk.form {
                Some(f) => chars_of(f.as_str()),
                None => match &tk.text {
                    Some(x) => chars_of(x.as_str()),
                    None => Vec::new(),
                },
            };
            tw.push(bt);
            t = t + 1;
        }
        words = tw;
    }
    proof {
        assert(words@.len() == word_surfaces(*verse).len());
        assert(forall|k: int|
            0 <= k < words@.len() ==> #[trigger] words@[k]@ == word_surfaces(*verse)[k]);
    }

    // Alignment and phrase extraction.
    let nodes = align_segments(words.len(), segments);
    let mut ph: Option<Vec<char>> = None;
    let mut rl: Option<Vec<char>> = None;
    let mut s: usize = 0;
    proof {
        assert(segments@.skip(0) =~= segments@);
    }
    while s < segments.len()
        invariant
            s <= segments@.len(),
            match ph {
                Some(v) => phrase_label_of(segments@) == Some(v@),
                None => phrase_label_of(segments@) == phrase_label_of(segments@.skip(s as int)),
            },
            match rl {
                Some(v) => phrase_role_of(segments@) == Some(v@),
                None => phrase_role_of(segments@) == phrase_role_of(segments@.skip(s as int)),
            },
        decreases segments@.len() - s,
    {
        proof {
            assert(segments@.skip(s as int)[0] == segments@[s as int]);
            assert(segments@.skip(s as int).skip(1) =~= segments@.skip(s + 1 as int));
        }
        let e = &segments[s];
        let feats: Vec<char> = match &e.features {
            Some(f) => chars_of(f.as_str()),
            None => Vec::new(),
        };
        let has_feats = e.features.is_some();
        proof {
            if has_feats {
                assert(feat_parts(feats@) == feats_of(segments@[s as int]));
            } else {
                assert(feats_of(segments@[s as int]) =~= Seq::<Seq<char>>::empty());
            }
        }
        if ph.is_none() {
            if has_feats {
                match feat_first_exec(&feats, "phrase") {
                    Some(v) => {
                        ph = Some(v);
                    },
                    None => {},
                }
            }
        }
        if rl.is_none() {
            if has_feats {
                match feat_first_exec(&feats, "phrase_fn") {
                    Some(v) => {
                        rl = Some(v);
                    },
                    None => {},
                }
            }
        }
        s = s + 1;
    }
    proof {
        assert(segments@.skip(segments@.len() as int).len() == 0);
    }
    let ph2 = gloss_exec(ph, "\u{634}\u{628}\u{647} \u{62c}\u{645}\u{644}\u{629}", "Semi-Sentence");
    let rl2 = gloss_exec(rl, "\u{62e}\u{628}\u{631}", "Predicate");

    // Header and phrase line.
    let mut acc: Vec<char> = chars_of("Clause (Sentence)\n");
    let pl: Vec<char> = match (&ph2, &rl2) {
        (Some(p), Some(r)) => {
            let a = chars_of("└─ Phrase: ");
            let b = chars_of(" | Role: ");
            let c = chars_of("\n");
            let p1 = concat_chars(&a, p);
            let p2 = concat_chars(&p1, &b);
            let p3 = concat_chars(&p2, r);
            concat_chars(&p3, &c)
        },
        (Some(p), None) => {
            let a = chars_of("└─ Phrase: ");
            let c = chars_of("\n");
            let p1 = concat_chars(&a, p);
            concat_chars(&p1, &c)
        },
        (None, Some(r)) => {
            let a = chars_of("└─ Phrase | Role: ");
            let c = chars_of("\n");
            let p1 = concat_chars(&a, r);
            concat_chars(&p1, &c)
        },
        (None, None) => chars_of("└─ Phrase\n"),
    };
    let acc2 = concat_chars(&acc, &pl);
    acc = acc2;
    let ghost gph = glossed(
        phrase_label_of(segments@),
        "\u{634}\u{628}\u{647} \u{62c}\u{645}\u{644}\u{629}"@,
        "Semi-Sentence"@,
    );
    let ghost grl = glossed(phrase_role_of(segments@), "\u{62e}\u{628}\u{631}"@, "Predicate"@);
    proof {
        assert(acc@ == "Clause (Sentence)\n"@ + phrase_line(gph, grl));
    }

    // Word blocks.
    let ghost wviews = word_surfaces(*verse);
    let ghost nviews = aligned(wviews.len(), segments@);
    let total = words.len();
    let mut k: usize = 0;
    while k < total
        invariant
            k <= total,
            total == wviews.len(),
            wviews == word_surfaces(*verse),
            nviews == aligned(wviews.len(), segments@),
            words@.len() == total,
            forall|j: int| 0 <= j < total ==> #[trigger] words@[j]@ == wviews[j],
            nodes@.len() == total,
            nodes@.map_values(
                |n: Vec<SegmentRender>| n@.map_values(|x: SegmentRender| segr_v(x)),
            ) == nviews,
            acc@ == "Clause (Sentence)\n"@ + phrase_line(gph, grl) + words_upto(
                wviews,
                nviews,
                total as int,
                k as int,
            ),
        decreases total - k,
    {
        let last_word = k + 1 == total;
        let wp = if last_word {
            chars_of("   └─")
        } else {
            chars_of("   ├─")
        };
        let mid: Vec<char> = if last_word {
            chars_of("      ")
        } else {
            chars_of("   │   ")
        };
        let a = chars_of(" Word ");
        let num = crate::num::u64_chars((k + 1) as u64);
        let b = chars_of(": ");
        let c = chars_of("\n");
        let p1 = concat_chars(&wp, &a);
        let p2 = concat_chars(&p1, &num);
        let p3 = concat_chars(&p2, &b);
        let p4 = concat_chars(&p3, &words[k]);
        let mut block = concat_chars(&p4, &c);

        let segs = &nodes[k];
        let nseg = segs.len();
        let ghost segviews = nviews[k as int];
        proof {
            assert(segviews.len() == nseg);
            assert(forall|j: int|
                0 <= j < nseg ==> segr_v(#[trigger] segs@[j]) == segviews[j]);
        }
        let ghost block_head = block@;
        let mut j: usize = 0;
        while j < nseg
            invariant
                j <= nseg,
                nseg == segviews.len(),
                segs@.len() == nseg,
                forall|m: int| 0 <= m < nseg ==> segr_v(#[trigger] segs@[m]) == segviews[m],
                mid@ == (if k + 1 == total {
                    "      "@
                } else {
                    "   │   "@
                }),
                block@ == block_head + segs_upto(segviews, mid@, j as int),
            decreases nseg - j,
        {
            let sg = &segs[j];
            let is_last_seg = j + 1 == nseg;
            let connector = if is_last_seg {
                chars_of("└─")
            } else {
                chars_of("├─")
            };
            let label = if sg.is_prefix {
                chars_of("Prefix")
            } else {
                chars_of("Stem")
            };
            let sp = chars_of(" ");
            let cl = chars_of(": ");
            let nl = chars_of("\n");
            let q1 = concat_chars(&mid, &connector);
            let q2 = concat_chars(&q1, &sp);
            let q3 = concat_chars(&q2, &label);
            let q4 = concat_chars(&q3, &cl);
            let q5 = concat_chars(&q4, &chars_of(sg.text.as_str()));
            let q6 = concat_chars(&q5, &nl);
            let indent: Vec<char> = if is_last_seg {
                concat_chars(&mid, &chars_of("    "))
            } else {
                concat_chars(&mid, &chars_of("│   "))
            };
            let mut segpart = q6;
            let ghost seg_head = segpart@;
            let ghost dviews = segviews[j as int].details;
            let mut m: usize = 0;
            while m < sg.details.len()
                invariant
                    m <= sg.details@.len(),
                    dviews == segviews[j as int].details,
                    sg.details@.len() == dviews.len(),
                    forall|x: int|
                        0 <= x < dviews.len() ==> #[trigger] sg.details@[x]@ == dviews[x],
                    segpart@ == seg_head + det_lines(dviews.take(m as int), indent@),
                decreases sg.details@.len() - m,
            {
                proof {
                    assert(dviews.take(m + 1 as int).drop_last() =~= dviews.take(m as int));
                    assert(dviews.take(m + 1 as int).last() == dviews[m as int]);
                }
                let r1 = concat_chars(&segpart, &indent);
                let r2 = concat_chars(&r1, &chars_of(sg.details[m].as_str()));
                let r3 = concat_chars(&r2, &chars_of("\n"));
                segpart = r3;
                m = m + 1;
            }
            proof {
                assert(dviews.take(dviews.len() as int) =~= dviews);
                assert(segpart@ == seg_block(segviews[j as int], mid@, is_last_seg));
            }
            let b2 = concat_chars(&block, &segpart);
            block = b2;
            j = j + 1;
        }
        let a2 = concat_chars(&acc, &block);
        acc = a2;
        proof {
            assert(block@ == word_block(
                k as int,
                total as int,
                wviews[k as int],
                segviews,
            ));
        }
        k = k + 1;
    }
    string_of(&acc)
}

/// Every whitespace-split word is nonempty.
proof fn lemma_ws_word_nonempty(s: Seq<char>, k: int)
    requires
        0 <= k < ws_words(s).len(),
    ensures
        ws_words(s)[k].len() > 0,
    decreases s.len(),
{
    if s.len() > 0 {
        if crate::text::is_space(s[0]) {
            lemma_ws_word_nonempty(s.skip(1), k);
        } else {
            crate::text::lemma_word_run_le(s);
            if k > 0 {
                lemma_ws_word_nonempty(s.skip(crate::text::word_run(s) as int), k - 1);
            }
        }
    }
}

} // verus!
