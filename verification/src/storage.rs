//! The storage engine: a relational, in-memory normalization of the
//! segment model.  Surahs, verses, verse texts, tokens and segments each
//! live in their own keyed table, so segment attributes stay addressable
//! for filtering and distinct-value listing and verse text can be
//! corrected without touching token rows.  Every write is a conflict-safe
//! upsert: re-ingesting the same record leaves the same rows.

use vstd::prelude::*;
use vstd::map::*;
use crate::model::{Annotation, ConnectionRecord, Segment, SegmentView, EngineError, EngineResult,
    verse_key, verse_ref_ok, verse_ref_surah, verse_ref_ayah};
use crate::table::{KTable, Row, upsert_seq, first_key_idx};

verus! {

// ----- rows ---------------------------------------------------------------

pub struct SurahRow {
    /// Decimal rendering of `number`; the table key.
    pub key_text: String,
    pub number: i64,
    pub name: String,
}

pub struct VerseRow {
    /// The `surah:ayah` key.
    pub verse_ref: String,
    pub surah: i64,
    pub ayah: i64,
}

pub struct VerseTextRow {
    pub verse_ref: String,
    pub surah: i64,
    pub ayah: i64,
    pub text: String,
}

pub struct TokenRow {
    /// The canonical `surah:ayah:index` token id.
    pub id: String,
    pub surah: i64,
    pub ayah: i64,
    pub token_index: usize,
    pub text: String,
}

pub struct SegmentRow {
    pub token_id: String,
    pub seg: Segment,
}

pub struct AnnotationRow {
    pub ann: Annotation,
    /// Creation sequence number; later rows carry larger numbers.
    pub created: u64,
}

pub struct MetadataRow {
    pub verse_ref: String,
    pub pronouns: Option<String>,
    pub hypotheses: Option<String>,
    pub translations: Option<String>,
}

pub struct ResearchRow {
    pub name: String,
    pub value: String,
}

impl Row for SurahRow {
    open spec fn key(&self) -> Seq<char> {
        self.key_text@
    }

    fn key_str(&self) -> &String {
        &self.key_text
    }
}

impl Row for VerseRow {
    open spec fn key(&self) -> Seq<char> {
        self.verse_ref@
    }

    fn key_str(&self) -> &String {
        &self.verse_ref
    }
}

impl Row for VerseTextRow {
    open spec fn key(&self) -> Seq<char> {
        self.verse_ref@
    }

    fn key_str(&self) -> &String {
        &self.verse_ref
    }
}

impl Row for TokenRow {
    open spec fn key(&self) -> Seq<char> {
        self.id@
    }

    fn key_str(&self) -> &String {
        &self.id
    }
}

impl Row for SegmentRow {
    open spec fn key(&self) -> Seq<char> {
        self.seg.id@
    }

    fn key_str(&self) -> &String {
        &self.seg.id
    }
}

impl Row for AnnotationRow {
    open spec fn key(&self) -> Seq<char> {
        self.ann.id@
    }

    fn key_str(&self) -> &String {
        &self.ann.id
    }
}

impl Row for ConnectionRecord {
    open spec fn key(&self) -> Seq<char> {
        self.id@
    }

    fn key_str(&self) -> &String {
        &self.id
    }
}

impl Row for MetadataRow {
    open spec fn key(&self) -> Seq<char> {
        self.verse_ref@
    }

    fn key_str(&self) -> &String {
        &self.verse_ref
    }
}

impl Row for ResearchRow {
    open spec fn key(&self) -> Seq<char> {
        self.name@
    }

    fn key_str(&self) -> &String {
        &self.name
    }
}

// ----- value views --------------------------------------------------------

pub ghost struct SegV {
    pub id: Seq<char>,
    pub type_: Seq<char>,
    pub form: Seq<char>,
    pub root: Option<Seq<char>>,
    pub lemma: Option<Seq<char>>,
    pub pattern: Option<Seq<char>>,
    pub pos: Option<Seq<char>>,
    pub verb_form: Option<Seq<char>>,
    pub voice: Option<Seq<char>>,
    pub mood: Option<Seq<char>>,
    pub tense: Option<Seq<char>>,
    pub aspect: Option<Seq<char>>,
    pub person: Option<Seq<char>>,
    pub number: Option<Seq<char>>,
    pub gender: Option<Seq<char>>,
    pub case_: Option<Seq<char>>,
    pub dependency_rel: Option<Seq<char>>,
    pub role: Option<Seq<char>>,
    pub derived_noun_type: Option<Seq<char>>,
    pub state: Option<Seq<char>>,
}

pub open spec fn opt_v(o: Option<String>) -> Option<Seq<char>> {
    match o {
        Some(s) => Some(s@),
        None => None,
    }
}

pub open spec fn seg_v(s: Segment) -> SegV {
    SegV {
        id: s.id@,
        type_: s.type_@,
        form: s.form@,
        root: opt_v(s.root),
        lemma: opt_v(s.lemma),
        pattern: opt_v(s.pattern),
        pos: opt_v(s.pos),
        verb_form: opt_v(s.verb_form),
        voice: opt_v(s.voice),
        mood: opt_v(s.mood),
        tense: opt_v(s.tense),
        aspect: opt_v(s.aspect),
        person: opt_v(s.person),
        number: opt_v(s.number),
        gender: opt_v(s.gender),
        case_: opt_v(s.case_),
        dependency_rel: opt_v(s.dependency_rel),
        role: opt_v(s.role),
        derived_noun_type: opt_v(s.derived_noun_type),
        state: opt_v(s.state),
    }
}

pub ghost struct TokV {
    pub surah: int,
    pub ayah: int,
    pub token_index: int,
    pub text: Seq<char>,
}

pub ghost struct SegRowV {
    pub token_id: Seq<char>,
    pub seg: SegV,
}

pub ghost struct AnnV {
    pub target_id: Seq<char>,
    pub layer: Seq<char>,
    pub payload: Seq<char>,
    pub created: int,
}

pub ghost struct ConnV {
    pub from_token: Seq<char>,
    pub to_token: Seq<char>,
    pub layer: Seq<char>,
    pub meta: Seq<char>,
}

pub ghost struct MetaV {
    pub pronouns: Option<Seq<char>>,
    pub hypotheses: Option<Seq<char>>,
    pub translations: Option<Seq<char>>,
}

// ----- the engine ---------------------------------------------------------

pub struct Storage {
    pub surahs: KTable<SurahRow>,
    pub verses: KTable<VerseRow>,
    pub verse_texts: KTable<VerseTextRow>,
    pub tokens: KTable<TokenRow>,
    pub segments: KTable<SegmentRow>,
    pub annotations: KTable<AnnotationRow>,
    pub connections: KTable<ConnectionRecord>,
    pub metadata: KTable<MetadataRow>,
    pub research: KTable<ResearchRow>,
    pub ann_counter: u64,
}

impl Storage {
    /// Surah number to stored name.
    pub open spec fn surah_names(self) -> Map<int, Seq<char>> {
        Map::new(
            |n: int| self.surahs.m().contains_key(crate::num::dec_rep_i64(n)),
            |n: int| self.surahs.m()[crate::num::dec_rep_i64(n)].name@,
        )
    }

    /// The set of (surah, ayah) coordinates known to the store.
    pub open spec fn verse_set(self) -> Set<(int, int)> {
        Set::new(|c: (int, int)| self.verses.m().contains_key(verse_key(c.0, c.1)))
    }

    /// Verse coordinates to canonical verse text.
    pub open spec fn verse_texts_m(self) -> Map<(int, int), Seq<char>> {
        Map::new(
            |c: (int, int)| self.verse_texts.m().contains_key(verse_key(c.0, c.1)),
            |c: (int, int)| self.verse_texts.m()[verse_key(c.0, c.1)].text@,
        )
    }

    /// Token id to token row contents.
    pub open spec fn tokens_m(self) -> Map<Seq<char>, TokV> {
        Map::new(
            |k: Seq<char>| self.tokens.m().contains_key(k),
            |k: Seq<char>| tok_v(self.tokens.m()[k]),
        )
    }

    /// Segment id to segment row contents.
    pub open spec fn segments_m(self) -> Map<Seq<char>, SegRowV> {
        Map::new(
            |k: Seq<char>| self.segments.m().contains_key(k),
            |k: Seq<char>| seg_row_v(self.segments.m()[k]),
        )
    }

    /// The segment rows in storage order, as values.
    pub open spec fn segments_sv(self) -> Seq<SegRowV> {
        seg_rows_view(self.segments.sq())
    }

    /// Annotation id to annotation contents.
    pub open spec fn annotations_m(self) -> Map<Seq<char>, AnnV> {
        Map::new(
            |k: Seq<char>| self.annotations.m().contains_key(k),
            |k: Seq<char>| ann_v(self.annotations.m()[k]),
        )
    }

    /// The annotation rows in storage order, as values.
    pub open spec fn annotations_sv(self) -> Seq<(Seq<char>, AnnV)> {
        self.annotations.sq().map_values(|r: AnnotationRow| (r.ann.id@, ann_v(r)))
    }

    /// Connection id to connection contents.
    pub open spec fn connections_m(self) -> Map<Seq<char>, ConnV> {
        Map::new(
            |k: Seq<char>| self.connections.m().contains_key(k),
            |k: Seq<char>| conn_v(self.connections.m()[k]),
        )
    }

    /// The connection rows in storage order, as values.
    pub open spec fn connections_sv(self) -> Seq<(Seq<char>, ConnV)> {
        self.connections.sq().map_values(|r: ConnectionRecord| (r.id@, conn_v(r)))
    }

    /// Verse reference to its metadata record.
    pub open spec fn metadata_m(self) -> Map<Seq<char>, MetaV> {
        Map::new(
            |k: Seq<char>| self.metadata.m().contains_key(k),
            |k: Seq<char>| meta_v(self.metadata.m()[k]),
        )
    }

    /// Research key to stored value text.
    pub open spec fn research_m(self) -> Map<Seq<char>, Seq<char>> {
        Map::new(
            |k: Seq<char>| self.research.m().contains_key(k),
            |k: Seq<char>| self.research.m()[k].value@,
        )
    }

    /// The token rows in storage order, as values.
    pub open spec fn tokens_sv(self) -> Seq<(Seq<char>, TokV)> {
        self.tokens.sq().map_values(|r: TokenRow| (r.id@, tok_v(r)))
    }

    /// The verse text rows in storage order.
    pub open spec fn verse_texts_sv(self) -> Seq<(int, int, Seq<char>)> {
        self.verse_texts.sq().map_values(
            |r: VerseTextRow| (r.surah as int, r.ayah as int, r.text@),
        )
    }

    /// The surah rows in storage order.
    pub open spec fn surahs_sv(self) -> Seq<(int, Seq<char>)> {
        self.surahs.sq().map_values(|r: SurahRow| (r.number as int, r.name@))
    }

    /// The verse rows in storage order.
    pub open spec fn verses_sv(self) -> Seq<(int, int)> {
        self.verses.sq().map_values(|r: VerseRow| (r.surah as int, r.ayah as int))
    }

    /// Well-formedness: every table keyed uniquely, every stored key the
    /// canonical rendering of the row it files, and annotation sequence
    /// numbers strictly increasing in row order, all below the counter.
    pub open spec fn wf(self) -> bool {
        &&& self.surahs.wf()
        &&& self.verses.wf()
        &&& self.verse_texts.wf()
        &&& self.tokens.wf()
        &&& self.segments.wf()
        &&& self.annotations.wf()
        &&& self.connections.wf()
        &&& self.metadata.wf()
        &&& self.research.wf()
        &&& (forall|i: int|
            0 <= i < self.surahs.sq().len() ==> (#[trigger] self.surahs.sq()[i]).key_text@
                == crate::num::dec_rep_i64(self.surahs.sq()[i].number as int))
        &&& (forall|i: int|
            0 <= i < self.verses.sq().len() ==> (#[trigger] self.verses.sq()[i]).verse_ref@
                == verse_key(
                self.verses.sq()[i].surah as int,
                self.verses.sq()[i].ayah as int,
            ))
        &&& (forall|i: int|
            0 <= i < self.verse_texts.sq().len() ==> (
            #[trigger] self.verse_texts.sq()[i]).verse_ref@ == verse_key(
                self.verse_texts.sq()[i].surah as int,
                self.verse_texts.sq()[i].ayah as int,
            ))
        &&& (forall|i: int|
            0 <= i < self.annotations.sq().len() ==> (
            #[trigger] self.annotations.sq()[i]).created < self.ann_counter)
        &&& (forall|i: int, j: int|
            0 <= i < j < self.annotations.sq().len() ==> self.annotations.sq()[i].created
                < self.annotations.sq()[j].created)
    }

    pub fn new() -> (st: Self)
        ensures
            st.wf(),
            st.surah_names() =~= Map::<int, Seq<char>>::empty(),
            st.verse_set() =~= Set::<(int, int)>::empty(),
            st.verse_texts_m() =~= Map::<(int, int), Seq<char>>::empty(),
            st.tokens_m() =~= Map::<Seq<char>, TokV>::empty(),
            st.segments_m() =~= Map::<Seq<char>, SegRowV>::empty(),
            st.annotations_m() =~= Map::<Seq<char>, AnnV>::empty(),
            st.connections_m() =~= Map::<Seq<char>, ConnV>::empty(),
            st.metadata_m() =~= Map::<Seq<char>, MetaV>::empty(),
            st.research_m() =~= Map::<Seq<char>, Seq<char>>::empty(),
            st.segments_sv() =~= Seq::<SegRowV>::empty(),
            st.annotations_sv() =~= Seq::<(Seq<char>, AnnV)>::empty(),
            st.ann_counter == 0,
    {
        Storage {
            surahs: KTable::new(),
            verses: KTable::new(),
            verse_texts: KTable::new(),
            tokens: KTable::new(),
            segments: KTable::new(),
            annotations: KTable::new(),
            connections: KTable::new(),
            metadata: KTable::new(),
            research: KTable::new(),
            ann_counter: 0,
        }
    }
}

/// The canonical token id an ingested record is filed under: derived from
/// its verse reference and token position, not from the record's own id.
pub open spec fn doc_token_key(doc: SegmentView) -> Seq<char> {
    crate::model::token_key(
        verse_ref_surah(doc.verse_ref@),
        verse_ref_ayah(doc.verse_ref@),
        doc.token_index as int,
    )
}

/// The token row contents an ingested record produces.
pub open spec fn doc_token_row(doc: SegmentView) -> TokV {
    TokV {
        surah: verse_ref_surah(doc.verse_ref@),
        ayah: verse_ref_ayah(doc.verse_ref@),
        token_index: doc.token_index as int,
        text: doc.text@,
    }
}

pub open spec fn tok_v(r: TokenRow) -> TokV {
    TokV {
        surah: r.surah as int,
        ayah: r.ayah as int,
        token_index: r.token_index as int,
        text: r.text@,
    }
}

pub open spec fn seg_row_v(r: SegmentRow) -> SegRowV {
    SegRowV { token_id: r.token_id@, seg: seg_v(r.seg) }
}

pub open spec fn ann_v(r: AnnotationRow) -> AnnV {
    AnnV {
        target_id: r.ann.target_id@,
        layer: r.ann.layer@,
        payload: r.ann.payload@,
        created: r.created as int,
    }
}

pub open spec fn conn_v(r: ConnectionRecord) -> ConnV {
    ConnV { from_token: r.from_token@, to_token: r.to_token@, layer: r.layer@, meta: r.meta@ }
}

pub open spec fn meta_v(r: MetadataRow) -> MetaV {
    MetaV {
        pronouns: opt_v(r.pronouns),
        hypotheses: opt_v(r.hypotheses),
        translations: opt_v(r.translations),
    }
}

// ----- the effect of one ingested record ----------------------------------

pub open spec fn seg_rows_view(sq: Seq<SegmentRow>) -> Seq<SegRowV> {
    sq.map_values(|r: SegmentRow| seg_row_v(r))
}

/// The segment rows a record contributes: each of its segments filed under
/// the record's token id.
pub open spec fn seg_rows_of(tid: Seq<char>, segs: Seq<Segment>) -> Seq<SegRowV> {
    segs.map_values(|g: Segment| SegRowV { token_id: tid, seg: seg_v(g) })
}

/// Filing a list of segment rows into the id-keyed contents, in order.
pub open spec fn seg_map_upserted(m: Map<Seq<char>, SegRowV>, xs: Seq<SegRowV>) -> Map<
    Seq<char>,
    SegRowV,
>
    decreases xs.len(),
{
    if xs.len() == 0 {
        m
    } else {
        seg_map_upserted(m, xs.drop_last()).insert(xs.last().seg.id, xs.last())
    }
}

/// First position of a segment id among row values, or `-1`.
pub open spec fn first_sv_idx(s: Seq<SegRowV>, id: Seq<char>) -> int
    decreases s.len(),
{
    if s.len() == 0 {
        -1
    } else if s[0].seg.id == id {
        0
    } else {
        let r = first_sv_idx(s.skip(1), id);
        if r < 0 {
            -1
        } else {
            1 + r
        }
    }
}

/// A conflict-upsert at the value level: replace in place or append.
pub open spec fn upsert_sv(s: Seq<SegRowV>, x: SegRowV) -> Seq<SegRowV> {
    let i = first_sv_idx(s, x.seg.id);
    if i >= 0 {
        s.update(i, x)
    } else {
        s.push(x)
    }
}

/// Filing a list of segment rows, in order, at the value level.
pub open spec fn seg_sv_upserted(s: Seq<SegRowV>, xs: Seq<SegRowV>) -> Seq<SegRowV>
    decreases xs.len(),
{
    if xs.len() == 0 {
        s
    } else {
        upsert_sv(seg_sv_upserted(s, xs.drop_last()), xs.last())
    }
}

/// The row-level first index and the value-level one agree.
proof fn lemma_first_idx_sv(sq: Seq<SegmentRow>, id: Seq<char>)
    ensures
        first_key_idx(sq, id) == first_sv_idx(seg_rows_view(sq), id),
    decreases sq.len(),
{
    if sq.len() > 0 {
        assert(seg_rows_view(sq)[0] == seg_row_v(sq[0]));
        if sq[0].seg.id@ != id {
            lemma_first_idx_sv(sq.skip(1), id);
            assert(seg_rows_view(sq.skip(1)) =~= seg_rows_view(sq).skip(1));
        }
    }
}

/// A row-level upsert looks, through the value view, like a value-level one.
proof fn lemma_seg_upsert_sv(sq: Seq<SegmentRow>, x: SegmentRow)
    ensures
        seg_rows_view(crate::table::upsert_seq(sq, x)) == upsert_sv(seg_rows_view(sq), seg_row_v(x)),
{
    lemma_first_idx_sv(sq, x.seg.id@);
    crate::table::lemma_first_key_idx_props(sq, x.seg.id@);
    let i = first_key_idx(sq, x.seg.id@);
    if i >= 0 {
        assert(seg_rows_view(sq.update(i, x)) =~= seg_rows_view(sq).update(i, seg_row_v(x)));
    } else {
        assert(seg_rows_view(sq.push(x)) =~= seg_rows_view(sq).push(seg_row_v(x)));
    }
}

/// Inserting a token row shows up in the id-keyed token view as an insert.
proof fn lemma_tokens_m_insert(pre: Storage, post: Storage, row: TokenRow)
    requires
        post.tokens.m() == pre.tokens.m().insert(row.id@, row),
    ensures
        post.tokens_m() == pre.tokens_m().insert(row.id@, tok_v(row)),
{
    assert(post.tokens_m() =~= pre.tokens_m().insert(row.id@, tok_v(row)));
}

/// Inserting a segment row shows up in the id-keyed segment view as an
/// insert.
proof fn lemma_segments_m_insert(pre: Storage, post: Storage, row: SegmentRow)
    requires
        post.segments.m() == pre.segments.m().insert(row.seg.id@, row),
    ensures
        post.segments_m() == pre.segments_m().insert(row.seg.id@, seg_row_v(row)),
{
    assert(post.segments_m() =~= pre.segments_m().insert(row.seg.id@, seg_row_v(row)));
}

/// What one successfully ingested record does to the store: its surah and
/// verse coordinate are present, its token row holds the record's text and
/// position under the canonical id, and each of its segments is filed
/// under its own id, in order, last write winning.
pub open spec fn upsert_effect(pre: Storage, post: Storage, doc: SegmentView) -> bool {
    let su = verse_ref_surah(doc.verse_ref@);
    let ay = verse_ref_ayah(doc.verse_ref@);
    &&& post.surah_names() == (if pre.surah_names().contains_key(su) {
        pre.surah_names()
    } else {
        pre.surah_names().insert(su, Seq::<char>::empty())
    })
    &&& (pre.surah_names().contains_key(su) ==> post.surahs == pre.surahs)
    &&& post.verse_set() == pre.verse_set().insert((su, ay))
    &&& (pre.verse_set().contains((su, ay)) ==> post.verses == pre.verses)
    &&& post.tokens_m() == pre.tokens_m().insert(doc_token_key(doc), doc_token_row(doc))
    &&& (exists|row: TokenRow|
        row.id@ == doc_token_key(doc) && #[trigger] tok_v(row) == doc_token_row(doc)
            && post.tokens.sq() == upsert_seq(pre.tokens.sq(), row))
    &&& post.segments_m() == seg_map_upserted(
        pre.segments_m(),
        seg_rows_of(doc_token_key(doc), doc.segments@),
    )
    &&& post.segments_sv() == seg_sv_upserted(
        pre.segments_sv(),
        seg_rows_of(doc_token_key(doc), doc.segments@),
    )
    &&& post.verse_texts == pre.verse_texts
    &&& post.annotations == pre.annotations
    &&& post.connections == pre.connections
    &&& post.metadata == pre.metadata
    &&& post.research == pre.research
    &&& post.ann_counter == pre.ann_counter
}

impl Storage {
    /// Ingests one record: upserts its surah, verse coordinate, token row
    /// and every segment, each as an independent conflict-safe write.  The
    /// token is filed under the canonical `surah:ayah:index` id.  A record
    /// whose verse reference is malformed is rejected whole, leaving the
    /// store untouched.
    pub fn upsert_segment(&mut self, doc: &SegmentView) -> (r: EngineResult<()>)
        requires
            old(self).wf(),
        ensures
            final(self).wf(),
            r is Ok <==> verse_ref_ok(doc.verse_ref@),
            r is Err ==> *final(self) == *old(self) && (r matches Err(e) && e is Invalid),
            r is Ok ==> upsert_effect(*old(self), *final(self), *doc),
            final(self).verse_texts == old(self).verse_texts,
            final(self).annotations == old(self).annotations,
            final(self).connections == old(self).connections,
            final(self).metadata == old(self).metadata,
            final(self).research == old(self).research,
            final(self).ann_counter == old(self).ann_counter,
    {
        let (su, ay) = match crate::model::parse_verse_ref(doc.verse_ref.as_str()) {
            Ok(p) => p,
            Err(_) => {
                return Err(EngineError::Invalid(String::new()));
            },
        };

        // Surah row: insert-ignore, name left empty when unknown.
        let skey = crate::num::i64_string(su);
        let surah_known = match self.surahs.find(&skey) {
            Some(_) => true,
            None => false,
        };
        if !surah_known {
            let row = SurahRow { key_text: skey, number: su, name: String::new() };
            let ghost grow = row;
            let _ = self.surahs.upsert(row);
            proof {
                lemma_surah_names_insert(*old(self), *self, su);
                let s0 = old(self).surahs.sq();
                let s1 = self.surahs.sq();
                let fi = first_key_idx(s0, grow.key());
                crate::table::lemma_first_key_idx_props(s0, grow.key());
                assert forall|j: int| 0 <= j < s1.len() implies (#[trigger] s1[j]).key_text@
                    == crate::num::dec_rep_i64(s1[j].number as int) by {
                    if fi >= 0 {
                        if j != fi {
                            assert(s1[j] == s0[j]);
                        }
                    } else {
                        if j != s0.len() {
                            assert(s1[j] == s0[j]);
                        }
                    }
                }
            }
        } else {
            proof {
                assert(old(self).surah_names().contains_key(su as int));
            }
        }
        let ghost st1 = *self;

        // Verse coordinate: insert-ignore.
        let vkey = crate::model::interp_key(su, ay);
        let verse_known = match self.verses.find(&vkey) {
            Some(_) => true,
            None => false,
        };
        if !verse_known {
            let row = VerseRow { verse_ref: vkey, surah: su, ayah: ay };
            let ghost grow = row;
            let _ = self.verses.upsert(row);
            proof {
                lemma_verse_set_insert(st1, *self, su as int, ay as int);
                let s0 = st1.verses.sq();
                let s1 = self.verses.sq();
                let fi = first_key_idx(s0, grow.key());
                crate::table::lemma_first_key_idx_props(s0, grow.key());
                assert forall|j: int| 0 <= j < s1.len() implies (#[trigger] s1[j]).verse_ref@
                    == verse_key(s1[j].surah as int, s1[j].ayah as int) by {
                    if fi >= 0 {
                        if j != fi {
                            assert(s1[j] == s0[j]);
                        }
                    } else {
                        if j != s0.len() {
                            assert(s1[j] == s0[j]);
                        }
                    }
                }
            }
        } else {
            proof {
                assert(st1.verse_set().contains((su as int, ay as int)));
                assert(self.verse_set() =~= st1.verse_set().insert((su as int, ay as int)));
            }
        }
        let ghost st2 = *self;

        // Token row, keyed canonically by coordinate and position.
        let tid = crate::model::token_uid(su, ay, doc.token_index);
        let trow = TokenRow {
            id: tid.clone(),
            surah: su,
            ayah: ay,
            token_index: doc.token_index,
            text: doc.text.clone(),
        };
        let ghost gtrow = trow;
        proof {
            assert(gtrow.id@ == doc_token_key(*doc));
            assert(tok_v(gtrow) == doc_token_row(*doc));
        }
        let _ = self.tokens.upsert(trow);
        proof {
            lemma_tokens_m_insert(st2, *self, gtrow);
        }
        let ghost st3 = *self;

        // Segment rows, each keyed by its own id.
        let ghost xs = seg_rows_of(doc_token_key(*doc), doc.segments@);
        let mut i: usize = 0;
        proof {
            assert(xs.take(0) =~= Seq::<SegRowV>::empty());
        }
        while i < doc.segments.len()
            invariant
                i <= doc.segments@.len(),
                xs == seg_rows_of(doc_token_key(*doc), doc.segments@),
                tid@ == doc_token_key(*doc),
                self.segments.wf(),
                self.segments_m() == seg_map_upserted(st3.segments_m(), xs.take(i as int)),
                self.segments_sv() == seg_sv_upserted(st3.segments_sv(), xs.take(i as int)),
                self.surahs == st3.surahs,
                self.verses == st3.verses,
                self.verse_texts == st3.verse_texts,
                self.tokens == st3.tokens,
                self.annotations == st3.annotations,
                self.connections == st3.connections,
                self.metadata == st3.metadata,
                self.research == st3.research,
                self.ann_counter == st3.ann_counter,
            decreases doc.segments@.len() - i,
        {
            let ghost pre = *self;
            let srow = SegmentRow {
                token_id: tid.clone(),
                seg: crate::model::dup_segment(&doc.segments[i]),
            };
            let ghost gsrow = srow;
            proof {
                assert(seg_row_v(gsrow) == xs[i as int]);
            }
            let _ = self.segments.upsert(srow);
            proof {
                lemma_segments_m_insert(pre, *self, gsrow);
                lemma_seg_upsert_sv(pre.segments.sq(), gsrow);
                assert(xs.take(i + 1 as int).drop_last() =~= xs.take(i as int));
                assert(xs.take(i + 1 as int).last() == xs[i as int]);
                assert(self.segments_m() == seg_map_upserted(
                    st3.segments_m(),
                    xs.take(i + 1 as int),
                ));
                assert(self.segments_sv() == seg_sv_upserted(
                    st3.segments_sv(),
                    xs.take(i + 1 as int),
                ));
            }
            i = i + 1;
        }
        proof {
            assert(xs.take(doc.segments@.len() as int) =~= xs);
            lemma_wf_preserved(*old(self), *self);
            // The views of tables a later step did not touch are stable.
            assert(self.surah_names() =~= st1.surah_names());
            assert(st1.verse_set() =~= old(self).verse_set());
            assert(self.verse_set() =~= st2.verse_set());
            assert(st2.tokens_m() =~= old(self).tokens_m());
            assert(self.tokens_m() =~= st3.tokens_m());
            assert(st3.segments_m() =~= old(self).segments_m());
            assert(st3.segments_sv() =~= old(self).segments_sv());
        }
        Ok(())
    }
}

/// Inserting a fresh surah row keeps the number-keyed view consistent.
proof fn lemma_surah_names_insert(pre: Storage, post: Storage, su: i64)
    requires
        post.surahs.m() == pre.surahs.m().insert(
            crate::num::dec_rep_i64(su as int),
            post.surahs.m()[crate::num::dec_rep_i64(su as int)],
        ),
        post.surahs.m().contains_key(crate::num::dec_rep_i64(su as int)),
        post.surahs.m()[crate::num::dec_rep_i64(su as int)].name@ == Seq::<char>::empty(),
        !pre.surah_names().contains_key(su as int),
    ensures
        post.surah_names() == pre.surah_names().insert(su as int, Seq::<char>::empty()),
{
    assert(post.surah_names() =~= pre.surah_names().insert(su as int, Seq::<char>::empty())) by {
        assert forall|n: int|
            #![trigger post.surah_names().contains_key(n)]
            (post.surah_names().contains_key(n) == pre.surah_names().insert(
                su as int,
                Seq::<char>::empty(),
            ).contains_key(n)) && (post.surah_names().contains_key(n)
            ==> post.surah_names()[n] == pre.surah_names().insert(
                su as int,
                Seq::<char>::empty(),
            )[n]) by {
            if crate::num::dec_rep_i64(n) == crate::num::dec_rep_i64(su as int) {
                crate::num::lemma_dec_rep_i64_inject(n, su as int);
            }
        }
    }
}

/// Inserting a fresh verse row keeps the coordinate set consistent.
proof fn lemma_verse_set_insert(pre: Storage, post: Storage, su: int, ay: int)
    requires
        post.verses.m() == pre.verses.m().insert(
            verse_key(su, ay),
            post.verses.m()[verse_key(su, ay)],
        ),
        post.verses.m().contains_key(verse_key(su, ay)),
    ensures
        post.verse_set() == pre.verse_set().insert((su, ay)),
{
    assert(post.verse_set() =~= pre.verse_set().insert((su, ay))) by {
        assert forall|c: (int, int)|
            #![trigger post.verse_set().contains(c)]
            post.verse_set().contains(c) == pre.verse_set().insert((su, ay)).contains(c) by {
            if verse_key(c.0, c.1) == verse_key(su, ay) {
                crate::model::lemma_verse_key_inject(c.0, c.1, su, ay);
            }
        }
    }
}

// ----- reading a token back -----------------------------------------------

/// The segment values filed under a token, in storage order.
pub open spec fn token_segs(s: Seq<SegRowV>, tid: Seq<char>) -> Seq<SegV>
    decreases s.len(),
{
    if s.len() == 0 {
        Seq::empty()
    } else if s[0].token_id == tid {
        seq![s[0].seg] + token_segs(s.skip(1), tid)
    } else {
        token_segs(s.skip(1), tid)
    }
}

pub open spec fn seg_views_of(segs: Seq<Segment>) -> Seq<SegV> {
    segs.map_values(|g: Segment| seg_v(g))
}

/// Extending the scanned rows by one extends the filter by at most one.
pub proof fn lemma_token_segs_snoc(s: Seq<SegRowV>, x: SegRowV, tid: Seq<char>)
    ensures
        token_segs(s.push(x), tid) == if x.token_id == tid {
            token_segs(s, tid).push(x.seg)
        } else {
            token_segs(s, tid)
        },
    decreases s.len(),
{
    if s.len() == 0 {
        assert(s.push(x).skip(1) =~= s);
        if x.token_id == tid {
            assert(token_segs(s.push(x), tid) =~= token_segs(s, tid).push(x.seg));
        }
    } else {
        lemma_token_segs_snoc(s.skip(1), x, tid);
        assert(s.push(x).skip(1) =~= s.skip(1).push(x));
        if x.token_id == tid {
            if s[0].token_id == tid {
                assert(seq![s[0].seg] + token_segs(s.skip(1), tid).push(x.seg) =~= (seq![s[0].seg]
                    + token_segs(s.skip(1), tid)).push(x.seg));
            }
        }
    }
}

/// What hydrating a token id yields: the token row's coordinates,
/// position and text, and the segments filed under the id, in storage
/// order; no annotations are joined.
pub open spec fn hydrated(st: Storage, id: Seq<char>, d: SegmentView) -> bool {
    let tok = st.tokens_m()[id];
    &&& d.id@ == id
    &&& d.verse_ref@ == verse_key(tok.surah, tok.ayah)
    &&& d.token_index == tok.token_index
    &&& d.text@ == tok.text
    &&& seg_views_of(d.segments@) == token_segs(st.segments_sv(), id)
    &&& d.annotations@.len() == 0
}

impl Storage {
    /// Hydrates one token by id from the normalized tables: the token row
    /// plus every segment filed under it, in storage order.  Annotations
    /// are not joined here.
    pub fn get_segment(&self, id: &str) -> (r: EngineResult<Option<SegmentView>>)
        requires
            self.wf(),
        ensures
            r is Ok,
            !self.tokens_m().contains_key(id@) ==> (r matches Ok(o) && o is None),
            self.tokens_m().contains_key(id@) ==> (r matches Ok(o) && o matches Some(d)
                && hydrated(*self, id@, d)),
    {
        let id_string = id.to_owned();
        let found = match self.tokens.find(&id_string) {
            Some(row) => {
                Some(
                    (
                        row.surah,
                        row.ayah,
                        row.token_index,
                        row.text.clone(),
                    ),
                )
            },
            None => None,
        };
        match found {
            None => Ok(None),
            Some((surah, ayah, token_index, text)) => {
                let ghost tok = self.tokens_m()[id@];
                proof {
                    assert(tok == tok_v(self.tokens.m()[id@]));
                }
                let verse_ref = crate::model::interp_key(surah, ayah);
                let mut segs: Vec<Segment> = Vec::new();
                let n = self.segments.row_count();
                let mut i: usize = 0;
                proof {
                    assert(self.segments_sv().take(0) =~= Seq::<SegRowV>::empty());
                    assert(seg_views_of(segs@) =~= Seq::<SegV>::empty());
                }
                while i < n
                    invariant
                        i <= n,
                        n == self.segments.sq().len(),
                        self.wf(),
                        seg_views_of(segs@) == token_segs(
                            self.segments_sv().take(i as int),
                            id_string@,
                        ),
                        id_string@ == id@,
                    decreases n - i,
                {
                    let row = self.segments.row_at(i);
                    proof {
                        assert(self.segments_sv()[i as int] == seg_row_v(self.segments.sq()[i as int]));
                        assert(self.segments_sv().take(i + 1 as int) =~= self.segments_sv().take(
                            i as int,
                        ).push(self.segments_sv()[i as int]));
                        lemma_token_segs_snoc(
                            self.segments_sv().take(i as int),
                            self.segments_sv()[i as int],
                            id_string@,
                        );
                    }
                    if row.token_id == id_string {
                        segs.push(crate::model::dup_segment(&row.seg));
                        proof {
                            assert(seg_views_of(segs@) =~= seg_views_of(
                                segs@.take(segs@.len() - 1),
                            ).push(seg_v(segs@.last())));
                            assert(segs@.take(segs@.len() - 1) =~= segs@.drop_last());
                        }
                    }
                    i = i + 1;
                }
                proof {
                    assert(self.segments_sv().take(n as int) =~= self.segments_sv());
                }
                Ok(
                    Some(
                        SegmentView {
                            id: id_string,
                            verse_ref,
                            token_index,
                            text,
                            segments: segs,
                            annotations: Vec::new(),
                        },
                    ),
                )
            },
        }
    }
}

// ----- laws of ingestion --------------------------------------------------

/// No two segment row values share an id.
pub open spec fn unique_sv(s: Seq<SegRowV>) -> bool {
    forall|i: int, j: int| 0 <= i < j < s.len() ==> s[i].seg.id != s[j].seg.id
}

proof fn lemma_first_sv_idx_props(s: Seq<SegRowV>, id: Seq<char>)
    ensures
        first_sv_idx(s, id) == -1 ==> forall|j: int| 0 <= j < s.len() ==> s[j].seg.id != id,
        first_sv_idx(s, id) >= 0 ==> 0 <= first_sv_idx(s, id) < s.len() && s[first_sv_idx(
            s,
            id,
        )].seg.id == id && forall|j: int| 0 <= j < first_sv_idx(s, id) ==> s[j].seg.id != id,
    decreases s.len(),
{
    if s.len() > 0 && s[0].seg.id != id {
        lemma_first_sv_idx_props(s.skip(1), id);
        let r = first_sv_idx(s.skip(1), id);
        if r == -1 {
            assert forall|j: int| 0 <= j < s.len() implies s[j].seg.id != id by {
                if j > 0 {
                    assert(s[j] == s.skip(1)[j - 1]);
                }
            }
        } else {
            assert(s[1 + r] == s.skip(1)[r]);
            assert forall|j: int| 0 <= j < 1 + r implies s[j].seg.id != id by {
                if j > 0 {
                    assert(s[j] == s.skip(1)[j - 1]);
                }
            }
        }
    }
}

proof fn lemma_first_sv_idx_determined(s: Seq<SegRowV>, id: Seq<char>, i: int)
    requires
        0 <= i < s.len(),
        s[i].seg.id == id,
        forall|j: int| 0 <= j < i ==> s[j].seg.id != id,
    ensures
        first_sv_idx(s, id) == i,
    decreases s.len(),
{
    if i > 0 {
        assert(s[0].seg.id != id);
        assert(s.skip(1)[i - 1] == s[i]);
        assert forall|j: int| 0 <= j < i - 1 implies s.skip(1)[j].seg.id != id by {
            assert(s.skip(1)[j] == s[j + 1]);
        }
        lemma_first_sv_idx_determined(s.skip(1), id, i - 1);
    }
}

proof fn lemma_upsert_sv_unique(s: Seq<SegRowV>, x: SegRowV)
    requires
        unique_sv(s),
    ensures
        unique_sv(upsert_sv(s, x)),
{
    lemma_first_sv_idx_props(s, x.seg.id);
    let fi = first_sv_idx(s, x.seg.id);
    let t = upsert_sv(s, x);
    if fi >= 0 {
        assert forall|i: int, j: int| 0 <= i < j < t.len() implies t[i].seg.id != t[j].seg.id by {
            if i != fi && j != fi {
                assert(t[i] == s[i] && t[j] == s[j]);
            } else if i == fi {
                assert(t[j] == s[j]);
                assert(s[fi].seg.id == x.seg.id);
            } else {
                assert(t[i] == s[i]);
                assert(s[fi].seg.id == x.seg.id);
            }
        }
    } else {
        assert forall|i: int, j: int| 0 <= i < j < t.len() implies t[i].seg.id != t[j].seg.id by {
            if j < s.len() {
                assert(t[i] == s[i] && t[j] == s[j]);
            } else {
                assert(t[i] == s[i] && t[j] == x);
            }
        }
    }
}

proof fn lemma_batch_unique(s: Seq<SegRowV>, xs: Seq<SegRowV>)
    requires
        unique_sv(s),
    ensures
        unique_sv(seg_sv_upserted(s, xs)),
    decreases xs.len(),
{
    if xs.len() > 0 {
        lemma_batch_unique(s, xs.drop_last());
        lemma_upsert_sv_unique(seg_sv_upserted(s, xs.drop_last()), xs.last());
    }
}

/// After one batch, each filed row with a distinct id sits at its first
/// index and still holds its own value.
proof fn lemma_batch_value(s: Seq<SegRowV>, xs: Seq<SegRowV>, m: int)
    requires
        unique_sv(s),
        forall|i1: int, i2: int| 0 <= i1 < i2 < xs.len() ==> xs[i1].seg.id != xs[i2].seg.id,
        0 <= m < xs.len(),
    ensures
        first_sv_idx(seg_sv_upserted(s, xs), xs[m].seg.id) >= 0,
        seg_sv_upserted(s, xs)[first_sv_idx(seg_sv_upserted(s, xs), xs[m].seg.id)] == xs[m],
    decreases xs.len(),
{
    let a = seg_sv_upserted(s, xs);
    let b = seg_sv_upserted(s, xs.drop_last());
    let x = xs.last();
    lemma_batch_unique(s, xs.drop_last());
    lemma_first_sv_idx_props(b, x.seg.id);
    let fb = first_sv_idx(b, x.seg.id);
    if m == xs.len() - 1 {
        if fb >= 0 {
            assert(a == b.update(fb, x));
            assert forall|j: int| 0 <= j < fb implies a[j].seg.id != x.seg.id by {
                assert(a[j] == b[j]);
            }
            lemma_first_sv_idx_determined(a, x.seg.id, fb);
        } else {
            assert(a == b.push(x));
            assert forall|j: int| 0 <= j < b.len() implies a[j].seg.id != x.seg.id by {
                assert(a[j] == b[j]);
            }
            lemma_first_sv_idx_determined(a, x.seg.id, b.len() as int);
        }
    } else {
        lemma_batch_value(s, xs.drop_last(), m);
        let fi = first_sv_idx(b, xs[m].seg.id);
        lemma_first_sv_idx_props(b, xs[m].seg.id);
        assert(xs[m].seg.id != x.seg.id);
        if fb >= 0 {
            assert(a == b.update(fb, x));
            assert(fb != fi);
            assert(a[fi] == b[fi]);
            assert forall|j: int| 0 <= j < fi implies a[j].seg.id != xs[m].seg.id by {
                if j == fb {
                    assert(a[j] == x);
                } else {
                    assert(a[j] == b[j]);
                }
            }
            lemma_first_sv_idx_determined(a, xs[m].seg.id, fi);
        } else {
            assert(a == b.push(x));
            assert(a[fi] == b[fi]);
            assert forall|j: int| 0 <= j < fi implies a[j].seg.id != xs[m].seg.id by {
                assert(a[j] == b[j]);
            }
            lemma_first_sv_idx_determined(a, xs[m].seg.id, fi);
        }
    }
}

/// Replaying the same batch over its own result changes nothing, row for
/// row: the filed values and their places are already what the batch
/// files.
proof fn lemma_batch_replay(s: Seq<SegRowV>, xs: Seq<SegRowV>)
    requires
        unique_sv(s),
        forall|i1: int, i2: int| 0 <= i1 < i2 < xs.len() ==> xs[i1].seg.id != xs[i2].seg.id,
    ensures
        seg_sv_upserted(seg_sv_upserted(s, xs), xs) == seg_sv_upserted(s, xs),
{
    let a = seg_sv_upserted(s, xs);
    lemma_batch_unique(s, xs);
    assert forall|m: int| 0 <= m <= xs.len() implies seg_sv_upserted(a, xs.take(m)) == a by {
        lemma_batch_replay_step(s, xs, m);
    }
    assert(xs.take(xs.len() as int) =~= xs);
    assert(seg_sv_upserted(a, xs.take(xs.len() as int)) == a);
}

proof fn lemma_batch_replay_step(s: Seq<SegRowV>, xs: Seq<SegRowV>, m: int)
    requires
        unique_sv(s),
        forall|i1: int, i2: int| 0 <= i1 < i2 < xs.len() ==> xs[i1].seg.id != xs[i2].seg.id,
        0 <= m <= xs.len(),
    ensures
        seg_sv_upserted(seg_sv_upserted(s, xs), xs.take(m)) == seg_sv_upserted(s, xs),
    decreases m,
{
    let a = seg_sv_upserted(s, xs);
    if m == 0 {
        assert(xs.take(0) =~= Seq::<SegRowV>::empty());
    } else {
        lemma_batch_replay_step(s, xs, m - 1);
        assert(xs.take(m).drop_last() =~= xs.take(m - 1));
        assert(xs.take(m).last() == xs[m - 1]);
        assert(seg_sv_upserted(a, xs.take(m)) == upsert_sv(a, xs[m - 1]));
        lemma_batch_value(s, xs, m - 1);
        lemma_first_sv_idx_props(a, xs[m - 1].seg.id);
        let fi = first_sv_idx(a, xs[m - 1].seg.id);
        assert(a[fi] == xs[m - 1]);
        assert(a.update(fi, xs[m - 1]) =~= a);
    }
}

/// A batch of segments whose ids are all new is appended in order.
proof fn lemma_batch_fresh_appends(s: Seq<SegRowV>, xs: Seq<SegRowV>)
    requires
        forall|j: int, i: int|
            0 <= j < s.len() && 0 <= i < xs.len() ==> s[j].seg.id != xs[i].seg.id,
        forall|i1: int, i2: int| 0 <= i1 < i2 < xs.len() ==> xs[i1].seg.id != xs[i2].seg.id,
    ensures
        seg_sv_upserted(s, xs) == s + xs,
    decreases xs.len(),
{
    if xs.len() == 0 {
        assert(s + xs =~= s);
    } else {
        lemma_batch_fresh_appends(s, xs.drop_last());
        let b = s + xs.drop_last();
        let x = xs.last();
        assert forall|j: int| 0 <= j < b.len() implies b[j].seg.id != x.seg.id by {
            if j < s.len() {
                assert(b[j] == s[j]);
            } else {
                assert(b[j] == xs.drop_last()[j - s.len()]);
                assert(xs.drop_last()[j - s.len()] == xs[j - s.len()]);
            }
        }
        lemma_first_sv_idx_props(b, x.seg.id);
        if first_sv_idx(b, x.seg.id) >= 0 {
            assert(false);
        }
        assert(seg_sv_upserted(s, xs) == b.push(x));
        assert(b.push(x) =~= s + xs);
    }
}

/// Rows without the token id contribute nothing to the filter.
proof fn lemma_token_segs_none(s: Seq<SegRowV>, tid: Seq<char>)
    requires
        forall|j: int| 0 <= j < s.len() ==> s[j].token_id != tid,
    ensures
        token_segs(s, tid) == Seq::<SegV>::empty(),
    decreases s.len(),
{
    if s.len() > 0 {
        assert forall|j: int| 0 <= j < s.skip(1).len() implies s.skip(1)[j].token_id != tid by {
            assert(s.skip(1)[j] == s[j + 1]);
        }
        lemma_token_segs_none(s.skip(1), tid);
    }
}

/// Filtering a concatenation filters each part.
proof fn lemma_token_segs_concat(s: Seq<SegRowV>, t: Seq<SegRowV>, tid: Seq<char>)
    ensures
        token_segs(s + t, tid) == token_segs(s, tid) + token_segs(t, tid),
    decreases s.len(),
{
    if s.len() == 0 {
        assert(s + t =~= t);
        assert(token_segs(s, tid) + token_segs(t, tid) =~= token_segs(t, tid));
    } else {
        lemma_token_segs_concat(s.skip(1), t, tid);
        assert((s + t).skip(1) =~= s.skip(1) + t);
        assert((s + t)[0] == s[0]);
        if s[0].token_id == tid {
            assert(seq![s[0].seg] + (token_segs(s.skip(1), tid) + token_segs(t, tid)) =~= (seq![
                s[0].seg,
            ] + token_segs(s.skip(1), tid)) + token_segs(t, tid));
        }
    }
}

/// Rows that all carry the token id filter to their segment values.
proof fn lemma_token_segs_all(s: Seq<SegRowV>, tid: Seq<char>)
    requires
        forall|j: int| 0 <= j < s.len() ==> s[j].token_id == tid,
    ensures
        token_segs(s, tid) == s.map_values(|r: SegRowV| r.seg),
    decreases s.len(),
{
    if s.len() > 0 {
        assert forall|j: int| 0 <= j < s.skip(1).len() implies s.skip(1)[j].token_id == tid by {
            assert(s.skip(1)[j] == s[j + 1]);
        }
        lemma_token_segs_all(s.skip(1), tid);
        assert(s.skip(1).map_values(|r: SegRowV| r.seg) =~= s.map_values(
            |r: SegRowV| r.seg,
        ).skip(1));
        assert(seq![s[0].seg] + s.map_values(|r: SegRowV| r.seg).skip(1) =~= s.map_values(
            |r: SegRowV| r.seg,
        ));
    }
}

/// The keyed contents after a batch: every filed id holds its last value
/// from the batch, every other key is untouched.
pub open spec fn last_id_idx(xs: Seq<SegRowV>, k: Seq<char>) -> int
    decreases xs.len(),
{
    if xs.len() == 0 {
        -1
    } else if xs.last().seg.id == k {
        xs.len() - 1
    } else {
        last_id_idx(xs.drop_last(), k)
    }
}

proof fn lemma_seg_map_char(m: Map<Seq<char>, SegRowV>, xs: Seq<SegRowV>, k: Seq<char>)
    ensures
        last_id_idx(xs, k) >= -1,
        last_id_idx(xs, k) >= 0 ==> last_id_idx(xs, k) < xs.len() && xs[last_id_idx(
            xs,
            k,
        )].seg.id == k && seg_map_upserted(m, xs).contains_key(k) && seg_map_upserted(m, xs)[k]
            == xs[last_id_idx(xs, k)],
        last_id_idx(xs, k) == -1 ==> (seg_map_upserted(m, xs).contains_key(k) == m.contains_key(k))
            && (m.contains_key(k) ==> seg_map_upserted(m, xs)[k] == m[k]),
    decreases xs.len(),
{
    if xs.len() > 0 {
        lemma_seg_map_char(m, xs.drop_last(), k);
    }
}

/// Replaying the same batch on the keyed contents changes nothing.
proof fn lemma_seg_map_replay(m: Map<Seq<char>, SegRowV>, xs: Seq<SegRowV>)
    ensures
        seg_map_upserted(seg_map_upserted(m, xs), xs) == seg_map_upserted(m, xs),
{
    let a = seg_map_upserted(m, xs);
    let b = seg_map_upserted(a, xs);
    assert forall|k: Seq<char>| #[trigger] b.contains_key(k) implies a.contains_key(k) && b[k]
        == a[k] by {
        lemma_seg_map_char(m, xs, k);
        lemma_seg_map_char(a, xs, k);
    }
    assert forall|k: Seq<char>| #[trigger] a.contains_key(k) implies b.contains_key(k) by {
        lemma_seg_map_char(m, xs, k);
        lemma_seg_map_char(a, xs, k);
    }
    assert_maps_equal!(b, a, k => {
        lemma_seg_map_char(m, xs, k);
        lemma_seg_map_char(a, xs, k);
    });
}

/// The segment rows of a well-formed store carry pairwise distinct ids.
proof fn lemma_wf_unique_sv(st: Storage)
    requires
        st.wf(),
    ensures
        unique_sv(st.segments_sv()),
{
    assert forall|i: int, j: int|
        0 <= i < j < st.segments_sv().len() implies st.segments_sv()[i].seg.id
        != st.segments_sv()[j].seg.id by {
        assert(st.segments_sv()[i] == seg_row_v(st.segments.sq()[i]));
        assert(st.segments_sv()[j] == seg_row_v(st.segments.sq()[j]));
        assert(st.segments.sq()[i].key() != st.segments.sq()[j].key());
    }
}

/// Ingesting an identical record twice yields identical stored rows: the
/// second ingestion leaves every table — contents and row order alike —
/// exactly as the first left it, and adds no duplicates.
pub proof fn lemma_ingest_idempotent(pre: Storage, mid: Storage, post: Storage, doc: SegmentView)
    requires
        pre.wf(),
        mid.wf(),
        verse_ref_ok(doc.verse_ref@),
        upsert_effect(pre, mid, doc),
        upsert_effect(mid, post, doc),
        forall|i1: int, i2: int|
            0 <= i1 < i2 < doc.segments@.len() ==> doc.segments@[i1].id@ != doc.segments@[i2].id@,
    ensures
        post.surah_names() == mid.surah_names(),
        post.surahs == mid.surahs,
        post.verse_set() == mid.verse_set(),
        post.verses == mid.verses,
        post.tokens_m() == mid.tokens_m(),
        post.tokens_sv() == mid.tokens_sv(),
        post.tokens.sq().len() == mid.tokens.sq().len(),
        post.segments_m() == mid.segments_m(),
        post.segments_sv() == mid.segments_sv(),
        post.segments.sq().len() == mid.segments.sq().len(),
        post.verse_texts == mid.verse_texts,
        post.annotations == mid.annotations,
        post.connections == mid.connections,
        post.metadata == mid.metadata,
        post.research == mid.research,
{
    let su = verse_ref_surah(doc.verse_ref@);
    let ay = verse_ref_ayah(doc.verse_ref@);
    let k = doc_token_key(doc);
    let xs = seg_rows_of(k, doc.segments@);

    // Surah and verse tables: the key is present after the first pass.
    assert(mid.surah_names().contains_key(su));
    assert(mid.verse_set().contains((su, ay)));
    assert(post.verse_set() =~= mid.verse_set());

    // Token contents: inserting the same value again is invisible.
    assert(mid.tokens_m().contains_key(k));
    assert(mid.tokens_m()[k] == doc_token_row(doc));
    assert(post.tokens_m() =~= mid.tokens_m());

    // Token row order: the second write lands on the same row.
    let row2 = choose|row: TokenRow|
        row.id@ == k && #[trigger] tok_v(row) == doc_token_row(doc) && post.tokens.sq()
            == upsert_seq(mid.tokens.sq(), row);
    crate::table::lemma_rows_map_contains(mid.tokens.sq(), k);
    assert(mid.tokens.m().contains_key(k));
    let wi = choose|j: int| 0 <= j < mid.tokens.sq().len() && mid.tokens.sq()[j].key() == k;
    crate::table::lemma_first_key_idx_props(mid.tokens.sq(), row2.key());
    let fi = first_key_idx(mid.tokens.sq(), row2.key());
    if fi == -1 {
        assert(mid.tokens.sq()[wi].key() != k);
        assert(false);
    }
    assert(post.tokens.sq() == mid.tokens.sq().update(fi, row2));
    crate::table::lemma_rows_map_at(mid.tokens.sq(), fi);
    assert(tok_v(mid.tokens.sq()[fi]) == mid.tokens_m()[k]);
    assert(post.tokens_sv() =~= mid.tokens_sv()) by {
        assert forall|j: int| 0 <= j < post.tokens_sv().len() implies post.tokens_sv()[j]
            == mid.tokens_sv()[j] by {
            assert(post.tokens_sv()[j] == (post.tokens.sq()[j].id@, tok_v(post.tokens.sq()[j])));
            assert(mid.tokens_sv()[j] == (mid.tokens.sq()[j].id@, tok_v(mid.tokens.sq()[j])));
            if j != fi {
                assert(post.tokens.sq()[j] == mid.tokens.sq()[j]);
            }
        }
    }

    // Segment contents and row order: replaying the batch is invisible.
    lemma_seg_map_replay(pre.segments_m(), xs);
    lemma_wf_unique_sv(pre);
    assert(forall|i1: int, i2: int|
        0 <= i1 < i2 < xs.len() ==> xs[i1].seg.id != xs[i2].seg.id);
    lemma_batch_replay(pre.segments_sv(), xs);
    assert(post.segments.sq().len() == post.segments_sv().len());
    assert(mid.segments.sq().len() == mid.segments_sv().len());
}

/// A record upserted into a store that knows nothing of its token reads
/// back field for field: the token row holds its coordinates, position and
/// text, and the filter by its canonical id returns exactly its segments,
/// in order.
pub proof fn lemma_ingest_round_trip(pre: Storage, post: Storage, doc: SegmentView)
    requires
        pre.wf(),
        verse_ref_ok(doc.verse_ref@),
        upsert_effect(pre, post, doc),
        forall|j: int|
            0 <= j < pre.segments_sv().len() ==> pre.segments_sv()[j].token_id != doc_token_key(
                doc,
            ),
        forall|i1: int, i2: int|
            0 <= i1 < i2 < doc.segments@.len() ==> doc.segments@[i1].id@ != doc.segments@[i2].id@,
        forall|j: int, i: int|
            0 <= j < pre.segments_sv().len() && 0 <= i < doc.segments@.len()
                ==> pre.segments_sv()[j].seg.id != doc.segments@[i].id@,
    ensures
        post.tokens_m().contains_key(doc_token_key(doc)),
        post.tokens_m()[doc_token_key(doc)] == doc_token_row(doc),
        token_segs(post.segments_sv(), doc_token_key(doc)) == seg_views_of(doc.segments@),
{
    let k = doc_token_key(doc);
    let xs = seg_rows_of(k, doc.segments@);
    assert(forall|i1: int, i2: int|
        0 <= i1 < i2 < xs.len() ==> xs[i1].seg.id != xs[i2].seg.id);
    assert(forall|j: int, i: int|
        0 <= j < pre.segments_sv().len() && 0 <= i < xs.len()
            ==> pre.segments_sv()[j].seg.id != xs[i].seg.id);
    lemma_batch_fresh_appends(pre.segments_sv(), xs);
    assert(post.segments_sv() == pre.segments_sv() + xs);
    lemma_token_segs_concat(pre.segments_sv(), xs, k);
    lemma_token_segs_none(pre.segments_sv(), k);
    assert(forall|j: int| 0 <= j < xs.len() ==> xs[j].token_id == k);
    lemma_token_segs_all(xs, k);
    assert(Seq::<SegV>::empty() + xs.map_values(|r: SegRowV| r.seg) =~= xs.map_values(
        |r: SegRowV| r.seg,
    ));
    assert(xs.map_values(|r: SegRowV| r.seg) =~= seg_views_of(doc.segments@));
}

/// Well-formedness carries over when only the surah, verse, token and
/// segment tables were touched in the permitted ways.
proof fn lemma_wf_preserved(pre: Storage, post: Storage)
    requires
        pre.wf(),
        post.surahs.wf(),
        post.verses.wf(),
        post.verse_texts == pre.verse_texts,
        post.tokens.wf(),
        post.segments.wf(),
        post.annotations == pre.annotations,
        post.connections == pre.connections,
        post.metadata == pre.metadata,
        post.research == pre.research,
        post.ann_counter == pre.ann_counter,
        forall|i: int|
            0 <= i < post.surahs.sq().len() ==> (#[trigger] post.surahs.sq()[i]).key_text@
                == crate::num::dec_rep_i64(post.surahs.sq()[i].number as int),
        forall|i: int|
            0 <= i < post.verses.sq().len() ==> (#[trigger] post.verses.sq()[i]).verse_ref@
                == verse_key(post.verses.sq()[i].surah as int, post.verses.sq()[i].ayah as int),
    ensures
        post.wf(),
{
}

} // verus!
