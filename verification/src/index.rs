//! The search index: one document per token, free text in a default
//! field and every present segment attribute appended to its own
//! multi-valued field.  A structured query is the conjunction of a parsed
//! free-text part — or a match-all when the text is empty — and, per
//! filter, a disjunction of exact-term lookups on the filter's mapped
//! field; filters naming an unmapped field are ignored.  Documents become
//! visible to searches only at an explicit commit.

use vstd::prelude::*;
use crate::model::{EngineResult, QueryFilter, QuerySpec, SearchHit, Segment, SegmentView};
use crate::text::{chars_eq, chars_of, split_words, trimmed, ws_words};

verus! {

/// The closed enumeration of filterable fields; a filter name outside the
/// mapping is an explicit, ignored case.
#[derive(Clone, Copy)]
pub enum FilterField {
    Root,
    Lemma,
    Pos,
    Pattern,
    VerbForm,
    Gender,
    Number,
    Case,
    Voice,
    Mood,
    Tense,
    Aspect,
}

/// The field a filter name routes to, if any.
pub open spec fn field_of(name: Seq<char>) -> Option<FilterField> {
    if name == "root"@ || name == "roots"@ {
        Some(FilterField::Root)
    } else if name == "lemma"@ || name == "lemmas"@ {
        Some(FilterField::Lemma)
    } else if name == "pos"@ {
        Some(FilterField::Pos)
    } else if name == "pattern"@ {
        Some(FilterField::Pattern)
    } else if name == "verb_form"@ {
        Some(FilterField::VerbForm)
    } else if name == "gender"@ {
        Some(FilterField::Gender)
    } else if name == "number"@ {
        Some(FilterField::Number)
    } else if name == "case"@ || name == "case_"@ {
        Some(FilterField::Case)
    } else if name == "voice"@ {
        Some(FilterField::Voice)
    } else if name == "mood"@ {
        Some(FilterField::Mood)
    } else if name == "tense"@ {
        Some(FilterField::Tense)
    } else if name == "aspect"@ {
        Some(FilterField::Aspect)
    } else {
        None
    }
}

/// Routes a filter name to its field.
pub fn map_filter_field(name: &str) -> (r: Option<FilterField>)
    ensures
        r == field_of(name@),
{
    let v = chars_of(name);
    if crate::text::chars_eq_str(&v, "root") || crate::text::chars_eq_str(&v, "roots") {
        Some(FilterField::Root)
    } else if crate::text::chars_eq_str(&v, "lemma") || crate::text::chars_eq_str(&v, "lemmas") {
        Some(FilterField::Lemma)
    } else if crate::text::chars_eq_str(&v, "pos") {
        Some(FilterField::Pos)
    } else if crate::text::chars_eq_str(&v, "pattern") {
        Some(FilterField::Pattern)
    } else if crate::text::chars_eq_str(&v, "verb_form") {
        Some(FilterField::VerbForm)
    } else if crate::text::chars_eq_str(&v, "gender") {
        Some(FilterField::Gender)
    } else if crate::text::chars_eq_str(&v, "number") {
        Some(FilterField::Number)
    } else if crate::text::chars_eq_str(&v, "case") || crate::text::chars_eq_str(&v, "case_") {
        Some(FilterField::Case)
    } else if crate::text::chars_eq_str(&v, "voice") {
        Some(FilterField::Voice)
    } else if crate::text::chars_eq_str(&v, "mood") {
        Some(FilterField::Mood)
    } else if crate::text::chars_eq_str(&v, "tense") {
        Some(FilterField::Tense)
    } else if crate::text::chars_eq_str(&v, "aspect") {
        Some(FilterField::Aspect)
    } else {
        None
    }
}

/// One segment attribute, chosen by field.
pub open spec fn seg_attr(g: Segment, f: FilterField) -> Option<Seq<char>> {
    match f {
        FilterField::Root => crate::storage::opt_v(g.root),
        FilterField::Lemma => crate::storage::opt_v(g.lemma),
        FilterField::Pos => crate::storage::opt_v(g.pos),
        FilterField::Pattern => crate::storage::opt_v(g.pattern),
        FilterField::VerbForm => crate::storage::opt_v(g.verb_form),
        FilterField::Gender => crate::storage::opt_v(g.gender),
        FilterField::Number => crate::storage::opt_v(g.number),
        FilterField::Case => crate::storage::opt_v(g.case_),
        FilterField::Voice => crate::storage::opt_v(g.voice),
        FilterField::Mood => crate::storage::opt_v(g.mood),
        FilterField::Tense => crate::storage::opt_v(g.tense),
        FilterField::Aspect => crate::storage::opt_v(g.aspect),
    }
}

/// The present values of one attribute across a segment list, in order.
pub open spec fn attr_vals(segs: Seq<Segment>, f: FilterField) -> Seq<Seq<char>>
    decreases segs.len(),
{
    if segs.len() == 0 {
        Seq::empty()
    } else {
        let rest = attr_vals(segs.drop_last(), f);
        match seg_attr(segs.last(), f) {
            Some(x) => rest.push(x),
            None => rest,
        }
    }
}

proof fn lemma_attr_vals_snoc(segs: Seq<Segment>, x: Segment, f: FilterField)
    ensures
        attr_vals(segs.push(x), f) == match seg_attr(x, f) {
            Some(v) => attr_vals(segs, f).push(v),
            None => attr_vals(segs, f),
        },
{
    assert(segs.push(x).drop_last() =~= segs);
    assert(segs.push(x).last() == x);
}

/// One segment attribute as an executable reference.
fn seg_attr_ref<'a>(g: &'a Segment, f: FilterField) -> (r: Option<&'a String>)
    ensures
        match r {
            Some(s) => seg_attr(*g, f) == Some(s@),
            None => seg_attr(*g, f) is None,
        },
{
    let o = match f {
        FilterField::Root => &g.root,
        FilterField::Lemma => &g.lemma,
        FilterField::Pos => &g.pos,
        FilterField::Pattern => &g.pattern,
        FilterField::VerbForm => &g.verb_form,
        FilterField::Gender => &g.gender,
        FilterField::Number => &g.number,
        FilterField::Case => &g.case_,
        FilterField::Voice => &g.voice,
        FilterField::Mood => &g.mood,
        FilterField::Tense => &g.tense,
        FilterField::Aspect => &g.aspect,
    };
    match o {
        Some(s) => Some(s),
        None => None,
    }
}

/// Collects one attribute's present values across a segment list.
fn collect_attr(segs: &Vec<Segment>, f: FilterField) -> (r: Vec<String>)
    ensures
        crate::queries::str_views(r@) == attr_vals(segs@, f),
{
    let mut out: Vec<String> = Vec::new();
    let mut i: usize = 0;
    proof {
        assert(segs@.take(0) =~= Seq::<Segment>::empty());
        assert(crate::queries::str_views(out@) =~= Seq::<Seq<char>>::empty());
    }
    while i < segs.len()
        invariant
            i <= segs@.len(),
            crate::queries::str_views(out@) == attr_vals(segs@.take(i as int), f),
        decreases segs@.len() - i,
    {
        proof {
            assert(segs@.take(i + 1 as int) =~= segs@.take(i as int).push(segs@[i as int]));
            lemma_attr_vals_snoc(segs@.take(i as int), segs@[i as int], f);
        }
        match seg_attr_ref(&segs[i], f) {
            Some(s) => {
                out.push(s.clone());
                proof {
                    assert(crate::queries::str_views(out@) =~= crate::queries::str_views(
                        out@.drop_last(),
                    ).push(out@.last()@));
                }
            },
            None => {
            },
        }
        i = i + 1;
    }
    proof {
        assert(segs@.take(segs@.len() as int) =~= segs@);
    }
    out
}

/// One indexed document: the token's id and free text, and one
/// multi-valued field per segment attribute.
pub struct IndexDoc {
    pub id: String,
    pub text: String,
    pub roots: Vec<String>,
    pub lemmas: Vec<String>,
    pub pos: Vec<String>,
    pub patterns: Vec<String>,
    pub verb_forms: Vec<String>,
    pub genders: Vec<String>,
    pub numbers: Vec<String>,
    pub cases: Vec<String>,
    pub voices: Vec<String>,
    pub moods: Vec<String>,
    pub tenses: Vec<String>,
    pub aspects: Vec<String>,
}

/// The values one field of a document holds.
pub open spec fn doc_field(d: IndexDoc, f: FilterField) -> Seq<Seq<char>> {
    match f {
        FilterField::Root => crate::queries::str_views(d.roots@),
        FilterField::Lemma => crate::queries::str_views(d.lemmas@),
        FilterField::Pos => crate::queries::str_views(d.pos@),
        FilterField::Pattern => crate::queries::str_views(d.patterns@),
        FilterField::VerbForm => crate::queries::str_views(d.verb_forms@),
        FilterField::Gender => crate::queries::str_views(d.genders@),
        FilterField::Number => crate::queries::str_views(d.numbers@),
        FilterField::Case => crate::queries::str_views(d.cases@),
        FilterField::Voice => crate::queries::str_views(d.voices@),
        FilterField::Mood => crate::queries::str_views(d.moods@),
        FilterField::Tense => crate::queries::str_views(d.tenses@),
        FilterField::Aspect => crate::queries::str_views(d.aspects@),
    }
}

/// Whether a document was built from a record: same id and text, and each
/// field holding exactly the record's present attribute values, in order.
pub open spec fn doc_from(d: IndexDoc, v: SegmentView) -> bool {
    &&& d.id@ == v.id@
    &&& d.text@ == v.text@
    &&& forall|f: FilterField| #[trigger] doc_field(d, f) == attr_vals(v.segments@, f)
}

// ----- queries over documents ---------------------------------------------

/// A structured query, by value.
pub ghost struct QueryV {
    pub query: Seq<char>,
    pub filters: Seq<FilterV>,
}

pub ghost struct FilterV {
    pub field: Seq<char>,
    pub values: Seq<Seq<char>>,
}

pub open spec fn filter_v(f: QueryFilter) -> FilterV {
    FilterV { field: f.field@, values: crate::queries::str_views(f.values@) }
}

pub open spec fn query_v(q: QuerySpec) -> QueryV {
    QueryV { query: q.query@, filters: q.filters@.map_values(|f: QueryFilter| filter_v(f)) }
}

/// Whether one free-text word hits the document: it is one of the text's
/// whitespace-delimited tokens, or an exact value of the root, lemma,
/// part-of-speech or pattern fields.
pub open spec fn word_hits(d: IndexDoc, w: Seq<char>) -> bool {
    ||| ws_words(d.text@).contains(w)
    ||| doc_field(d, FilterField::Root).contains(w)
    ||| doc_field(d, FilterField::Lemma).contains(w)
    ||| doc_field(d, FilterField::Pos).contains(w)
    ||| doc_field(d, FilterField::Pattern).contains(w)
}

/// Whether the free-text part of a query accepts the document: an empty
/// (all-whitespace) query accepts everything, else some query word must
/// hit.
pub open spec fn free_text_matches(d: IndexDoc, query: Seq<char>) -> bool {
    trimmed(query).len() == 0 || exists|j: int|
        0 <= j < ws_words(query).len() && word_hits(d, #[trigger] ws_words(query)[j])
}

/// Whether one filter passes: an unmapped field is ignored, a mapped one
/// requires the document's field to hold any one of the filter's values.
pub open spec fn filter_passes(d: IndexDoc, f: FilterV) -> bool {
    match field_of(f.field) {
        None => true,
        Some(ff) => exists|k: int|
            0 <= k < f.values.len() && doc_field(d, ff).contains(#[trigger] f.values[k]),
    }
}

/// The whole structured query: free text and every filter must agree.
pub open spec fn doc_matches(d: IndexDoc, q: QueryV) -> bool {
    free_text_matches(d, q.query) && forall|j: int|
        0 <= j < q.filters.len() ==> filter_passes(d, #[trigger] q.filters[j])
}

/// The number of query words that hit the document; the relevance score
/// of a hit, with a match-all query scoring one.
pub open spec fn word_hit_count(d: IndexDoc, words: Seq<Seq<char>>) -> nat
    decreases words.len(),
{
    if words.len() == 0 {
        0
    } else {
        word_hit_count(d, words.drop_last()) + if word_hits(d, words.last()) {
            1nat
        } else {
            0nat
        }
    }
}

pub open spec fn score_of(d: IndexDoc, q: QueryV) -> nat {
    if trimmed(q.query).len() == 0 {
        1
    } else {
        word_hit_count(d, ws_words(q.query))
    }
}

/// The committed documents a query accepts, in index order.
pub open spec fn matching_docs(docs: Seq<IndexDoc>, q: QueryV) -> Seq<IndexDoc>
    decreases docs.len(),
{
    if docs.len() == 0 {
        Seq::empty()
    } else {
        let rest = matching_docs(docs.drop_last(), q);
        if doc_matches(docs.last(), q) {
            rest.push(docs.last())
        } else {
            rest
        }
    }
}

proof fn lemma_matching_docs_snoc(docs: Seq<IndexDoc>, x: IndexDoc, q: QueryV)
    ensures
        matching_docs(docs.push(x), q) == if doc_matches(x, q) {
            matching_docs(docs, q).push(x)
        } else {
            matching_docs(docs, q)
        },
{
    assert(docs.push(x).drop_last() =~= docs);
    assert(docs.push(x).last() == x);
}

// ----- the index ----------------------------------------------------------

/// The in-memory index: one serialized writer fills the pending list, and
/// an explicit commit moves it into the committed snapshot that searches
/// read.
pub struct SearchIndex {
    pub committed: Vec<IndexDoc>,
    pub pending: Vec<IndexDoc>,
}

impl SearchIndex {
    pub fn new() -> (r: Self)
        ensures
            r.committed@ == Seq::<IndexDoc>::empty(),
            r.pending@ == Seq::<IndexDoc>::empty(),
    {
        SearchIndex { committed: Vec::new(), pending: Vec::new() }
    }

    /// Adds one document built from a record to the pending writes; it is
    /// not visible to searches until the next commit.
    pub fn index_document(&mut self, doc: &SegmentView) -> (r: EngineResult<()>)
        ensures
            r is Ok,
            final(self).committed == old(self).committed,
            final(self).pending@.len() == old(self).pending@.len() + 1,
            forall|j: int|
                0 <= j < old(self).pending@.len() ==> final(self).pending@[j] == old(
                    self,
                ).pending@[j],
            doc_from(final(self).pending@.last(), *doc),
    {
        let d = IndexDoc {
            id: doc.id.clone(),
            text: doc.text.clone(),
            roots: collect_attr(&doc.segments, FilterField::Root),
            lemmas: collect_attr(&doc.segments, FilterField::Lemma),
            pos: collect_attr(&doc.segments, FilterField::Pos),
            patterns: collect_attr(&doc.segments, FilterField::Pattern),
            verb_forms: collect_attr(&doc.segments, FilterField::VerbForm),
            genders: collect_attr(&doc.segments, FilterField::Gender),
            numbers: collect_attr(&doc.segments, FilterField::Number),
            cases: collect_attr(&doc.segments, FilterField::Case),
            voices: collect_attr(&doc.segments, FilterField::Voice),
            moods: collect_attr(&doc.segments, FilterField::Mood),
            tenses: collect_attr(&doc.segments, FilterField::Tense),
            aspects: collect_attr(&doc.segments, FilterField::Aspect),
        };
        proof {
            assert forall|f: FilterField| #[trigger] doc_field(d, f) == attr_vals(
                doc.segments@,
                f,
            ) by {
                match f {
                    FilterField::Root => {},
                    FilterField::Lemma => {},
                    FilterField::Pos => {},
                    FilterField::Pattern => {},
                    FilterField::VerbForm => {},
                    FilterField::Gender => {},
                    FilterField::Number => {},
                    FilterField::Case => {},
                    FilterField::Voice => {},
                    FilterField::Mood => {},
                    FilterField::Tense => {},
                    FilterField::Aspect => {},
                }
            }
        }
        self.pending.push(d);
        Ok(())
    }

    /// Publishes every pending document: the sole point at which new
    /// documents become visible to searches.
    pub fn commit(&mut self) -> (r: EngineResult<()>)
        ensures
            r is Ok,
            final(self).committed@ == old(self).committed@ + old(self).pending@,
            final(self).pending@ == Seq::<IndexDoc>::empty(),
    {
        let mut moved: Vec<IndexDoc> = Vec::new();
        core::mem::swap(&mut moved, &mut self.pending);
        self.committed.append(&mut moved);
        Ok(())
    }

    /// Runs a structured query against the committed snapshot: the hits
    /// are the matching documents, in index order, truncated to the
    /// query's limit, each scored by the number of query words it
    /// matches (one for a match-all query).
    pub fn search(&self, query: &QuerySpec) -> (r: EngineResult<Vec<SearchHit>>)
        ensures
            r is Ok,
            r matches Ok(v) ==> {
                let ms = matching_docs(self.committed@, query_v(*query));
                &&& v@.len() == crate::queries::min_int(query.limit as int, ms.len() as int)
                &&& forall|j: int|
                    0 <= j < v@.len() ==> (#[trigger] v@[j]).id@ == ms[j].id@ && v@[j].score
                        == score_of(ms[j], query_v(*query))
            },
    {
        let qwords = split_words(&chars_of(query.query.as_str()));
        let qtrim = crate::text::trim_chars(&chars_of(query.query.as_str()));
        let match_all = qtrim.len() == 0;
        let ghost qv = query_v(*query);
        let n = self.committed.len();
        let mut out: Vec<SearchHit> = Vec::new();
        let mut i: usize = 0;
        proof {
            assert(self.committed@.take(0) =~= Seq::<IndexDoc>::empty());
        }
        while i < n
            invariant
                i <= n,
                n == self.committed@.len(),
                qv == query_v(*query),
                match_all == (trimmed(qv.query).len() == 0),
                qwords@.len() == ws_words(qv.query).len(),
                forall|k: int|
                    0 <= k < qwords@.len() ==> #[trigger] qwords@[k]@ == ws_words(qv.query)[k],
                ({
                    let ms = matching_docs(self.committed@.take(i as int), qv);
                    &&& out@.len() == crate::queries::min_int(
                        query.limit as int,
                        ms.len() as int,
                    )
                    &&& forall|j: int|
                        0 <= j < out@.len() ==> (#[trigger] out@[j]).id@ == ms[j].id@
                            && out@[j].score == score_of(ms[j], qv)
                }),
            decreases n - i,
        {
            let d = &self.committed[i];
            proof {
                assert(self.committed@.take(i + 1 as int) =~= self.committed@.take(i as int).push(
                    self.committed@[i as int],
                ));
                lemma_matching_docs_snoc(self.committed@.take(i as int), self.committed@[i as int], qv);
            }
            proof {
                assert(qwords@.map_values(|x: Vec<char>| x@) =~= ws_words(qv.query));
            }
            let hits = count_word_hits(d, &qwords);
            proof {
                lemma_word_hit_count_bound(*d, ws_words(qv.query));
            }
            let is_match = if match_all {
                true
            } else {
                hits > 0
            };
            proof {
                if !match_all {
                    lemma_hit_count_vs_exists(*d, ws_words(qv.query));
                }
            }
            let passes = if is_match {
                all_filters_pass(d, &query.filters)
            } else {
                false
            };
            proof {
                let d0 = self.committed@[i as int];
                assert(qv.filters.len() == query.filters@.len());
                if passes {
                    assert(free_text_matches(d0, qv.query));
                    assert forall|j: int| 0 <= j < qv.filters.len() implies filter_passes(
                        d0,
                        #[trigger] qv.filters[j],
                    ) by {
                        assert(qv.filters[j] == filter_v(query.filters@[j]));
                        assert(filter_passes(d0, filter_v(query.filters@[j])));
                    }
                    assert(doc_matches(d0, qv));
                    assert(score_of(d0, qv) == if match_all {
                        1nat
                    } else {
                        word_hit_count(d0, ws_words(qv.query))
                    });
                } else {
                    if is_match {
                        let j0 = choose|j: int|
                            0 <= j < query.filters@.len() && !filter_passes(
                                d0,
                                filter_v(#[trigger] query.filters@[j]),
                            );
                        assert(qv.filters[j0] == filter_v(query.filters@[j0]));
                        assert(!filter_passes(d0, qv.filters[j0]));
                        assert(!doc_matches(d0, qv));
                    } else {
                        assert(!free_text_matches(d0, qv.query));
                        assert(!doc_matches(d0, qv));
                    }
                }
            }
            if passes && out.len() < query.limit {
                let score: u64 = if match_all {
                    1
                } else {
                    hits as u64
                };
                out.push(SearchHit { id: d.id.clone(), score });
            }
            i = i + 1;
        }
        proof {
            assert(self.committed@.take(n as int) =~= self.committed@);
        }
        Ok(out)
    }

    /// Runs a free-text query with exact-term filters: each `(field,
    /// values)` pair accepts a document whose mapped field holds any one
    /// of the values, and the pairs are conjoined.
    pub fn search_with_filters(
        &self,
        query: &str,
        filters: Vec<(String, Vec<String>)>,
        limit: usize,
    ) -> (r: EngineResult<Vec<SearchHit>>)
        ensures
            r is Ok,
            r matches Ok(v) ==> {
                let qv = QueryV {
                    query: query@,
                    filters: filters@.map_values(
                        |p: (String, Vec<String>)|
                            FilterV { field: p.0@, values: crate::queries::str_views(p.1@) },
                    ),
                };
                let ms = matching_docs(self.committed@, qv);
                &&& v@.len() == crate::queries::min_int(limit as int, ms.len() as int)
                &&& forall|j: int|
                    0 <= j < v@.len() ==> (#[trigger] v@[j]).id@ == ms[j].id@ && v@[j].score
                        == score_of(ms[j], qv)
            },
    {
        let mut qfilters: Vec<QueryFilter> = Vec::new();
        let mut i: usize = 0;
        let ghost fpairs = filters@;
        while i < filters.len()
            invariant
                i <= filters@.len(),
                fpairs == filters@,
                qfilters@.len() == i,
                forall|j: int|
                    0 <= j < i ==> filter_v(#[trigger] qfilters@[j]) == (FilterV {
                        field: fpairs[j].0@,
                        values: crate::queries::str_views(fpairs[j].1@),
                    }),
            decreases filters@.len() - i,
        {
            let (field, values) = (filters[i].0.clone(), dup_strings(&filters[i].1));
            qfilters.push(QueryFilter { field, values });
            i = i + 1;
        }
        let spec_q = QuerySpec {
            query: query.to_owned(),
            filters: qfilters,
            limit,
            offset: 0,
            sort: None,
        };
        let r = self.search(&spec_q);
        proof {
            assert(query_v(spec_q).query == query@);
            assert(query_v(spec_q).filters =~= fpairs.map_values(
                |p: (String, Vec<String>)|
                    FilterV { field: p.0@, values: crate::queries::str_views(p.1@) },
            ));
        }
        r
    }
}

/// A copy of a string vector, equal view for view.
fn dup_strings(v: &Vec<String>) -> (r: Vec<String>)
    ensures
        r@.len() == v@.len(),
        forall|j: int| 0 <= j < v@.len() ==> #[trigger] r@[j]@ == v@[j]@,
        crate::queries::str_views(r@) == crate::queries::str_views(v@),
{
    let mut r: Vec<String> = Vec::new();
    let mut i: usize = 0;
    while i < v.len()
        invariant
            i <= v@.len(),
            r@.len() == i,
            forall|j: int| 0 <= j < i ==> #[trigger] r@[j]@ == v@[j]@,
        decreases v@.len() - i,
    {
        r.push(v[i].clone());
        i = i + 1;
    }
    proof {
        assert(crate::queries::str_views(r@) =~= crate::queries::str_views(v@));
    }
    r
}

/// Whether one word hits the document, executably.
fn word_hits_exec(d: &IndexDoc, w: &Vec<char>) -> (r: bool)
    ensures
        r == word_hits(*d, w@),
{
    let text_words = split_words(&chars_of(d.text.as_str()));
    let mut i: usize = 0;
    while i < text_words.len()
        invariant
            i <= text_words@.len(),
            text_words@.len() == ws_words(d.text@).len(),
            forall|k: int|
                0 <= k < text_words@.len() ==> #[trigger] text_words@[k]@ == ws_words(d.text@)[k],
            forall|k: int| 0 <= k < i ==> ws_words(d.text@)[k] != w@,
        decreases text_words@.len() - i,
    {
        if chars_eq(&text_words[i], w) {
            proof {
                assert(ws_words(d.text@)[i as int] == w@);
            }
            return true;
        }
        i = i + 1;
    }
    proof {
        if ws_words(d.text@).contains(w@) {
            let k = choose|k: int| 0 <= k < ws_words(d.text@).len() && ws_words(d.text@)[k] == w@;
            assert(false);
        }
    }
    if strings_hold_word(&d.roots, w) {
        return true;
    }
    if strings_hold_word(&d.lemmas, w) {
        return true;
    }
    if strings_hold_word(&d.pos, w) {
        return true;
    }
    if strings_hold_word(&d.patterns, w) {
        return true;
    }
    false
}

/// Whether any string in the vector has exactly this view.
fn strings_hold_word(v: &Vec<String>, w: &Vec<char>) -> (r: bool)
    ensures
        r == crate::queries::str_views(v@).contains(w@),
{
    let mut i: usize = 0;
    while i < v.len()
        invariant
            i <= v@.len(),
            forall|j: int| 0 <= j < i ==> v@[j]@ != w@,
        decreases v@.len() - i,
    {
        let sv = chars_of(v[i].as_str());
        if chars_eq(&sv, w) {
            proof {
                assert(crate::queries::str_views(v@)[i as int] == w@);
            }
            return true;
        }
        i = i + 1;
    }
    proof {
        if crate::queries::str_views(v@).contains(w@) {
            let j = choose|j: int|
                0 <= j < crate::queries::str_views(v@).len() && crate::queries::str_views(
                    v@,
                )[j] == w@;
            assert(v@[j]@ == w@);
            assert(false);
        }
    }
    false
}

/// Counts the query words that hit the document.
fn count_word_hits(d: &IndexDoc, words: &Vec<Vec<char>>) -> (r: usize)
    ensures
        r == word_hit_count(*d, words@.map_values(|x: Vec<char>| x@)),
{
    let ghost wviews = words@.map_values(|x: Vec<char>| x@);
    let n = words.len();
    let mut count: usize = 0;
    let mut i: usize = 0;
    proof {
        assert(wviews.take(0) =~= Seq::<Seq<char>>::empty());
    }
    while i < n
        invariant
            i <= n,
            n == words@.len(),
            wviews == words@.map_values(|x: Vec<char>| x@),
            count <= i,
            count == word_hit_count(*d, wviews.take(i as int)),
        decreases n - i,
    {
        proof {
            assert(wviews.take(i + 1 as int) =~= wviews.take(i as int).push(wviews[i as int]));
            lemma_word_hit_count_snoc(*d, wviews.take(i as int), wviews[i as int]);
        }
        if word_hits_exec(d, &words[i]) {
            count = count + 1;
        }
        i = i + 1;
    }
    proof {
        assert(wviews.take(words@.len() as int) =~= wviews);
    }
    count
}

proof fn lemma_word_hit_count_snoc(d: IndexDoc, words: Seq<Seq<char>>, w: Seq<char>)
    ensures
        word_hit_count(d, words.push(w)) == word_hit_count(d, words) + if word_hits(d, w) {
            1nat
        } else {
            0nat
        },
{
    assert(words.push(w).drop_last() =~= words);
    assert(words.push(w).last() == w);
}

proof fn lemma_word_hit_count_bound(d: IndexDoc, words: Seq<Seq<char>>)
    ensures
        word_hit_count(d, words) <= words.len(),
    decreases words.len(),
{
    if words.len() > 0 {
        lemma_word_hit_count_bound(d, words.drop_last());
    }
}

/// The hit count is positive exactly when some word hits.
proof fn lemma_hit_count_vs_exists(d: IndexDoc, words: Seq<Seq<char>>)
    ensures
        word_hit_count(d, words) > 0 <==> exists|j: int|
            0 <= j < words.len() && word_hits(d, #[trigger] words[j]),
    decreases words.len(),
{
    if words.len() > 0 {
        lemma_hit_count_vs_exists(d, words.drop_last());
        if word_hit_count(d, words) > 0 {
            if word_hits(d, words.last()) {
                assert(word_hits(d, words[words.len() - 1]));
            } else {
                let j = choose|j: int|
                    0 <= j < words.drop_last().len() && word_hits(
                        d,
                        #[trigger] words.drop_last()[j],
                    );
                assert(words[j] == words.drop_last()[j]);
            }
        }
        if exists|j: int| 0 <= j < words.len() && word_hits(d, #[trigger] words[j]) {
            let j = choose|j: int| 0 <= j < words.len() && word_hits(d, #[trigger] words[j]);
            if j < words.len() - 1 {
                assert(words.drop_last()[j] == words[j]);
            }
        }
    }
}

/// Whether every filter of the query passes, executably.
fn all_filters_pass(d: &IndexDoc, filters: &Vec<QueryFilter>) -> (r: bool)
    ensures
        r == forall|j: int|
            0 <= j < filters@.len() ==> filter_passes(*d, filter_v(#[trigger] filters@[j])),
{
    let mut i: usize = 0;
    while i < filters.len()
        invariant
            i <= filters@.len(),
            forall|j: int| 0 <= j < i ==> filter_passes(*d, filter_v(#[trigger] filters@[j])),
        decreases filters@.len() - i,
    {
        if !one_filter_passes(d, &filters[i]) {
            return false;
        }
        i = i + 1;
    }
    true
}

/// Whether one filter passes, executably.
fn one_filter_passes(d: &IndexDoc, f: &QueryFilter) -> (r: bool)
    ensures
        r == filter_passes(*d, filter_v(*f)),
{
    let field = match map_filter_field(f.field.as_str()) {
        None => {
            return true;
        },
        Some(ff) => ff,
    };
    let mut k: usize = 0;
    while k < f.values.len()
        invariant
            k <= f.values@.len(),
            field_of(f.field@) == Some(field),
            forall|j: int|
                0 <= j < k ==> !doc_field(*d, field).contains(
                    #[trigger] crate::queries::str_views(f.values@)[j],
                ),
        decreases f.values@.len() - k,
    {
        let wv = chars_of(f.values[k].as_str());
        let in_field = match field {
            FilterField::Root => strings_hold_word(&d.roots, &wv),
            FilterField::Lemma => strings_hold_word(&d.lemmas, &wv),
            FilterField::Pos => strings_hold_word(&d.pos, &wv),
            FilterField::Pattern => strings_hold_word(&d.patterns, &wv),
            FilterField::VerbForm => strings_hold_word(&d.verb_forms, &wv),
            FilterField::Gender => strings_hold_word(&d.genders, &wv),
            FilterField::Number => strings_hold_word(&d.numbers, &wv),
            FilterField::Case => strings_hold_word(&d.cases, &wv),
            FilterField::Voice => strings_hold_word(&d.voices, &wv),
            FilterField::Mood => strings_hold_word(&d.moods, &wv),
            FilterField::Tense => strings_hold_word(&d.tenses, &wv),
            FilterField::Aspect => strings_hold_word(&d.aspects, &wv),
        };
        if in_field {
            proof {
                assert(filter_v(*f).values[k as int] == crate::queries::str_views(
                    f.values@,
                )[k as int]);
                assert(doc_field(*d, field).contains(filter_v(*f).values[k as int]));
            }
            return true;
        }
        k = k + 1;
    }
    proof {
        if filter_passes(*d, filter_v(*f)) {
            let j = choose|j: int|
                0 <= j < filter_v(*f).values.len() && doc_field(*d, field).contains(
                    #[trigger] filter_v(*f).values[j],
                );
            assert(!doc_field(*d, field).contains(crate::queries::str_views(f.values@)[j]));
            assert(false);
        }
    }
    false
}

// ----- laws ---------------------------------------------------------------

/// Filter composition: a document passes a structured query exactly when
/// its free-text part accepts it and every filter does, where one filter
/// accepts a document holding any one of its listed values in the mapped
/// field — values disjoin inside a filter, filters conjoin with each
/// other — and a filter naming an unmapped field is ignored.
pub proof fn lemma_filter_composition(d: IndexDoc, q: QueryV)
    ensures
        doc_matches(d, q) <==> (free_text_matches(d, q.query) && forall|j: int|
            0 <= j < q.filters.len() ==> filter_passes(d, #[trigger] q.filters[j])),
        forall|j: int|
            0 <= j < q.filters.len() && field_of((#[trigger] q.filters[j]).field) is None
                ==> filter_passes(d, q.filters[j]),
{
}

/// Filters on different fields conjoin: a query carrying two filter lists
/// accepts a document exactly when the query with each list alone does —
/// so the hit set of the combined query is the intersection of the two
/// hit sets.
pub proof fn lemma_filters_conjoin(
    d: IndexDoc,
    query: Seq<char>,
    fs1: Seq<FilterV>,
    fs2: Seq<FilterV>,
)
    ensures
        doc_matches(d, QueryV { query, filters: fs1 + fs2 }) <==> (doc_matches(
            d,
            QueryV { query, filters: fs1 },
        ) && doc_matches(d, QueryV { query, filters: fs2 })),
{
    let both = fs1 + fs2;
    if doc_matches(d, QueryV { query, filters: both }) {
        assert forall|j: int| 0 <= j < fs1.len() implies filter_passes(d, #[trigger] fs1[j]) by {
            assert(QueryV { query, filters: both }.filters[j] == fs1[j]);
        }
        assert forall|j: int| 0 <= j < fs2.len() implies filter_passes(d, #[trigger] fs2[j]) by {
            assert(QueryV { query, filters: both }.filters[fs1.len() + j] == fs2[j]);
        }
    }
    if doc_matches(d, QueryV { query, filters: fs1 }) && doc_matches(
        d,
        QueryV { query, filters: fs2 },
    ) {
        assert forall|j: int| 0 <= j < both.len() implies filter_passes(d, #[trigger] both[j]) by {
            if j < fs1.len() {
                assert(both[j] == fs1[j]);
                assert(QueryV { query, filters: fs1 }.filters[j] == fs1[j]);
                assert(filter_passes(d, fs1[j]));
            } else {
                assert(both[j] == fs2[j - fs1.len()]);
                assert(QueryV { query, filters: fs2 }.filters[j - fs1.len()] == fs2[j
                    - fs1.len()]);
                assert(filter_passes(d, fs2[j - fs1.len()]));
            }
        }
    }
}

/// A root filter is sound: a document built from a record passes a
/// `root = x` filter only when some segment of the record carries exactly
/// that root.
pub proof fn lemma_root_filter_sound(d: IndexDoc, v: SegmentView, x: Seq<char>)
    requires
        doc_from(d, v),
        filter_passes(d, FilterV { field: "root"@, values: seq![x] }),
    ensures
        exists|i: int|
            0 <= i < v.segments@.len() && crate::storage::opt_v(
                (#[trigger] v.segments@[i]).root,
            ) == Some(x),
{
    assert(field_of("root"@) == Some(FilterField::Root));
    let fv = FilterV { field: "root"@, values: seq![x] };
    let k = choose|k: int|
        0 <= k < fv.values.len() && doc_field(d, FilterField::Root).contains(
            #[trigger] fv.values[k],
        );
    assert(doc_field(d, FilterField::Root).contains(x));
    assert(attr_vals(v.segments@, FilterField::Root).contains(x));
    lemma_attr_val_source(v.segments@, FilterField::Root, x);
}

/// Every collected attribute value comes from some segment.
proof fn lemma_attr_val_source(segs: Seq<Segment>, f: FilterField, x: Seq<char>)
    requires
        attr_vals(segs, f).contains(x),
    ensures
        exists|i: int| 0 <= i < segs.len() && seg_attr(#[trigger] segs[i], f) == Some(x),
    decreases segs.len(),
{
    if segs.len() > 0 {
        let rest = attr_vals(segs.drop_last(), f);
        if seg_attr(segs.last(), f) == Some(x) {
            assert(seg_attr(segs[segs.len() - 1], f) == Some(x));
        } else {
            assert(rest.contains(x)) by {
                let j = choose|j: int|
                    0 <= j < attr_vals(segs, f).len() && attr_vals(segs, f)[j] == x;
                match seg_attr(segs.last(), f) {
                    Some(y) => {
                        assert(attr_vals(segs, f) == rest.push(y));
                        assert(j < rest.len());
                        assert(rest[j] == x);
                    },
                    None => {
                        assert(attr_vals(segs, f) == rest);
                    },
                }
            }
            lemma_attr_val_source(segs.drop_last(), f, x);
            let i = choose|i: int|
                0 <= i < segs.drop_last().len() && seg_attr(
                    #[trigger] segs.drop_last()[i],
                    f,
                ) == Some(x);
            assert(segs[i] == segs.drop_last()[i]);
        }
    }
}

} // verus!
