//! The canonical segment model: verses, tokens, morphological segments,
//! annotations, connections, query shapes, and the engine's error taxonomy.

use vstd::prelude::*;
use crate::num::{int_str_val, is_int_str};
use crate::text::nosep_run;

verus! {

/// A morphological sub-unit of a token (prefix, stem or suffix) carrying
/// linguistic tags.  Every attribute beyond the surface form is optional.
pub struct Segment {
    pub id: String,
    pub type_: String,
    pub form: String,
    pub root: Option<String>,
    pub lemma: Option<String>,
    pub pattern: Option<String>,
    pub pos: Option<String>,
    pub verb_form: Option<String>,
    pub voice: Option<String>,
    pub mood: Option<String>,
    pub tense: Option<String>,
    pub aspect: Option<String>,
    pub person: Option<String>,
    pub number: Option<String>,
    pub gender: Option<String>,
    pub case_: Option<String>,
    pub dependency_rel: Option<String>,
    pub role: Option<String>,
    pub derived_noun_type: Option<String>,
    pub state: Option<String>,
}

/// The denormalized read model of one token: its verse reference, position,
/// surface text, ordered segments and attached annotations.
pub struct SegmentView {
    pub id: String,
    pub verse_ref: String,
    pub token_index: usize,
    pub text: String,
    pub segments: Vec<Segment>,
    pub annotations: Vec<Annotation>,
}

/// A free-form note keyed to a target and a layer.  The payload is carried
/// as opaque text.
pub struct Annotation {
    pub id: String,
    pub target_id: String,
    pub layer: String,
    pub payload: String,
}

/// A typed edge between two token ids, with opaque metadata text.
pub struct ConnectionRecord {
    pub id: String,
    pub from_token: String,
    pub to_token: String,
    pub layer: String,
    pub meta: String,
}

pub struct SurahInfo {
    pub number: i64,
    pub name: String,
}

pub struct SurahSummary {
    pub number: i64,
    pub name: String,
    pub ayah_count: i64,
}

/// One ranked search result: a token id and the number of matching term
/// occurrences in its document.
pub struct SearchHit {
    pub id: String,
    pub score: u64,
}

pub enum SortDirection {
    Asc,
    Desc,
}

pub struct SortSpec {
    pub field: String,
    pub direction: SortDirection,
}

pub fn default_sort_dir() -> (r: SortDirection)
    ensures
        r is Asc,
{
    SortDirection::Asc
}

pub fn default_limit() -> (r: usize)
    ensures
        r == 50,
{
    50
}

/// One structured filter: a field name and the values accepted for it.
/// A document passes when the field holds any one of the values.
pub struct QueryFilter {
    pub field: String,
    pub values: Vec<String>,
}

/// A structured query: free text, filters, and a result window.
pub struct QuerySpec {
    pub query: String,
    pub filters: Vec<QueryFilter>,
    pub limit: usize,
    pub offset: usize,
    pub sort: Option<SortSpec>,
}

/// A query naming one verse by its `surah:ayah` reference.
pub struct VerseQuery {
    pub verse: String,
}

/// The engine's error taxonomy.
#[derive(Debug)]
pub enum EngineError {
    NotFound,
    Storage(String),
    Search(String),
    Invalid(String),
    Other(String),
}

pub type EngineResult<T> = Result<T, EngineError>;

/// Whether `s` reads as `<surah>:<ayah>` with both parts signed decimal
/// numerals whose values fit in `i64`.  The split is at the first colon.
pub open spec fn verse_ref_ok(s: Seq<char>) -> bool {
    let k = nosep_run(s, ':') as int;
    k < s.len() && is_int_str(s.take(k)) && i64::MIN <= int_str_val(s.take(k)) <= i64::MAX
        && is_int_str(s.skip(k + 1)) && i64::MIN <= int_str_val(s.skip(k + 1)) <= i64::MAX
}

pub open spec fn verse_ref_surah(s: Seq<char>) -> int {
    int_str_val(s.take(nosep_run(s, ':') as int))
}

pub open spec fn verse_ref_ayah(s: Seq<char>) -> int {
    int_str_val(s.skip(nosep_run(s, ':') as int + 1))
}

/// Parses a `surah:ayah` verse reference.  Returns the two coordinates
/// exactly when the reference is well formed; otherwise the `Invalid`
/// error.
pub fn parse_verse_ref(s: &str) -> (r: EngineResult<(i64, i64)>)
    ensures
        r is Ok <==> verse_ref_ok(s@),
        r matches Ok(p) ==> p.0 == verse_ref_surah(s@) && p.1 == verse_ref_ayah(s@),
        r is Err ==> (r matches Err(e) && e is Invalid),
{
    let v = crate::text::chars_of(s);
    parse_verse_ref_chars(&v)
}

/// Parses a verse reference given as characters; the worker behind
/// `parse_verse_ref`.
pub fn parse_verse_ref_chars(v: &Vec<char>) -> (r: EngineResult<(i64, i64)>)
    ensures
        r is Ok <==> verse_ref_ok(v@),
        r matches Ok(p) ==> p.0 == verse_ref_surah(v@) && p.1 == verse_ref_ayah(v@),
        r is Err ==> (r matches Err(e) && e is Invalid),
{
    let n = v.len();
    // Find the first colon.
    let mut k: usize = 0;
    proof {
        assert(nosep_run(v@.skip(0), ':') == nosep_run(v@, ':')) by {
            assert(v@.skip(0) =~= v@);
        }
    }
    while k < n && v[k] != ':'
        invariant
            k <= n,
            n == v@.len(),
            nosep_run(v@, ':') == k + nosep_run(v@.skip(k as int), ':'),
        decreases n - k,
    {
        proof {
            assert(v@.skip(k as int)[0] == v@[k as int]);
            assert(nosep_run(v@.skip(k as int), ':') == 1 + nosep_run(
                v@.skip(k as int).skip(1),
                ':',
            ));
            assert(v@.skip(k as int).skip(1) =~= v@.skip(k + 1 as int));
        }
        k = k + 1;
    }
    proof {
        if k < n {
            assert(v@.skip(k as int)[0] == v@[k as int]);
        } else {
            assert(v@.skip(k as int).len() == 0);
        }
        assert(nosep_run(v@.skip(k as int), ':') == 0);
        assert(nosep_run(v@, ':') == k);
    }
    if k == n {
        return Err(EngineError::Invalid(String::new()));
    }
    let left = crate::text::sub_chars(v, 0, k);
    let right = crate::text::sub_chars(v, k + 1, n);
    proof {
        assert(left@ =~= v@.take(k as int));
        assert(right@ =~= v@.skip(k + 1 as int));
    }
    let surah = match crate::num::parse_i64(&left) {
        Some(x) => x,
        None => {
            return Err(EngineError::Invalid(String::new()));
        },
    };
    let ayah = match crate::num::parse_i64(&right) {
        Some(x) => x,
        None => {
            return Err(EngineError::Invalid(String::new()));
        },
    };
    Ok((surah, ayah))
}

/// The canonical `surah:ayah` key of a verse.
pub open spec fn verse_key(surah: int, ayah: int) -> Seq<char> {
    crate::num::dec_rep_i64(surah) + seq![':'] + crate::num::dec_rep_i64(ayah)
}

/// Renders the canonical `surah:ayah` key; also the key under which
/// interpretations of the verse are filed.
pub fn interp_key(surah: i64, ayah: i64) -> (s: String)
    ensures
        s@ == verse_key(surah as int, ayah as int),
{
    let mut a = crate::num::i64_chars(surah);
    a.push(':');
    let b = crate::num::i64_chars(ayah);
    let all = crate::text::concat_chars(&a, &b);
    proof {
        assert(a@ =~= crate::num::dec_rep_i64(surah as int) + seq![':']);
    }
    crate::text::string_of(&all)
}

/// Distinct coordinates render as distinct verse keys.
pub proof fn lemma_verse_key_inject(s1: int, a1: int, s2: int, a2: int)
    requires
        verse_key(s1, a1) == verse_key(s2, a2),
    ensures
        s1 == s2,
        a1 == a2,
{
    crate::num::lemma_dec_rep_i64_shape(s1);
    crate::num::lemma_dec_rep_i64_shape(s2);
    crate::num::lemma_dec_rep_i64_shape(a1);
    crate::num::lemma_dec_rep_i64_shape(a2);
    let k1 = verse_key(s1, a1);
    let d1 = crate::num::dec_rep_i64(s1);
    let d2 = crate::num::dec_rep_i64(s2);
    // No colon occurs in either numeral part, so the first colon of the key
    // sits exactly after the surah numeral; equal keys split identically.
    assert(k1[d1.len() as int] == ':');
    assert(forall|k: int| 0 <= k < d1.len() ==> k1[k] == d1[k]);
    assert(forall|k: int| 0 <= k < d2.len() ==> k1[k] == d2[k]);
    assert(forall|k: int| 0 <= k < d1.len() ==> k1[k] != ':');
    assert(forall|k: int| 0 <= k < d2.len() ==> k1[k] != ':');
    if d1.len() < d2.len() {
        assert(k1[d1.len() as int] != ':');
        assert(false);
    }
    if d2.len() < d1.len() {
        assert(verse_key(s2, a2)[d2.len() as int] == ':');
        assert(k1[d2.len() as int] != ':');
        assert(false);
    }
    assert(d1 =~= d2);
    crate::num::lemma_dec_rep_i64_inject(s1, s2);
    let e1 = crate::num::dec_rep_i64(a1);
    let e2 = crate::num::dec_rep_i64(a2);
    assert(k1.len() == d1.len() + 1 + e1.len());
    assert(verse_key(s2, a2).len() == d2.len() + 1 + e2.len());
    assert(e1.len() == e2.len());
    assert forall|k: int| 0 <= k < e1.len() implies e1[k] == e2[k] by {
        assert(e1[k] == k1[d1.len() + 1 + k]);
        assert(e2[k] == verse_key(s2, a2)[d2.len() + 1 + k]);
    }
    assert(e1 =~= e2);
    crate::num::lemma_dec_rep_i64_inject(a1, a2);
}

/// The canonical `surah:ayah:index` key of a token.
pub open spec fn token_key(surah: int, ayah: int, index: int) -> Seq<char> {
    verse_key(surah, ayah) + seq![':'] + crate::num::dec_rep_i64(index)
}

/// Renders the canonical token id for a position within a verse.
pub fn token_uid(surah: i64, ayah: i64, index: usize) -> (s: String)
    ensures
        s@ == token_key(surah as int, ayah as int, index as int),
{
    let k = interp_key(surah, ayah);
    let mut a = crate::text::chars_of(k.as_str());
    a.push(':');
    let b = crate::num::u64_chars(index as u64);
    let all = crate::text::concat_chars(&a, &b);
    proof {
        assert(a@ =~= verse_key(surah as int, ayah as int) + seq![':']);
        assert(crate::num::dec_rep_i64(index as int) == crate::num::dec_rep(index as nat));
    }
    crate::text::string_of(&all)
}

/// A clone of an optional string, equal to the original.
pub fn dup_opt_string(o: &Option<String>) -> (r: Option<String>)
    ensures
        r == *o,
{
    match o {
        Some(s) => Some(s.clone()),
        None => None,
    }
}

/// A field-for-field copy of a segment, equal to the original.
pub fn dup_segment(s: &Segment) -> (r: Segment)
    ensures
        r == *s,
{
    Segment {
        id: s.id.clone(),
        type_: s.type_.clone(),
        form: s.form.clone(),
        root: dup_opt_string(&s.root),
        lemma: dup_opt_string(&s.lemma),
        pattern: dup_opt_string(&s.pattern),
        pos: dup_opt_string(&s.pos),
        verb_form: dup_opt_string(&s.verb_form),
        voice: dup_opt_string(&s.voice),
        mood: dup_opt_string(&s.mood),
        tense: dup_opt_string(&s.tense),
        aspect: dup_opt_string(&s.aspect),
        person: dup_opt_string(&s.person),
        number: dup_opt_string(&s.number),
        gender: dup_opt_string(&s.gender),
        case_: dup_opt_string(&s.case_),
        dependency_rel: dup_opt_string(&s.dependency_rel),
        role: dup_opt_string(&s.role),
        derived_noun_type: dup_opt_string(&s.derived_noun_type),
        state: dup_opt_string(&s.state),
    }
}

/// A copy of a whole segment list, equal element for element.
pub fn dup_segments(v: &Vec<Segment>) -> (r: Vec<Segment>)
    ensures
        r@ == v@,
{
    let mut r: Vec<Segment> = Vec::new();
    let mut i: usize = 0;
    while i < v.len()
        invariant
            i <= v.len(),
            r@ == v@.take(i as int),
        decreases v.len() - i,
    {
        r.push(dup_segment(&v[i]));
        proof {
            assert(v@.take(i + 1 as int) =~= v@.take(i as int).push(v@[i as int]));
        }
        i = i + 1;
    }
    proof {
        assert(r@ =~= v@);
    }
    r
}

/// A copy of an annotation, equal to the original.
pub fn dup_annotation(a: &Annotation) -> (r: Annotation)
    ensures
        r == *a,
{
    Annotation {
        id: a.id.clone(),
        target_id: a.target_id.clone(),
        layer: a.layer.clone(),
        payload: a.payload.clone(),
    }
}

/// A copy of a connection record, equal to the original.
pub fn dup_connection(c: &ConnectionRecord) -> (r: ConnectionRecord)
    ensures
        r == *c,
{
    ConnectionRecord {
        id: c.id.clone(),
        from_token: c.from_token.clone(),
        to_token: c.to_token.clone(),
        layer: c.layer.clone(),
        meta: c.meta.clone(),
    }
}

} // verus!
