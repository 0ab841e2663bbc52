//! The storage engine's read side and the smaller write paths:
//! annotations, connections, verse texts, per-verse metadata, the research
//! key/value store, distinct-value listings and counts.

use vstd::prelude::*;
use crate::model::{Annotation, ConnectionRecord, EngineError, EngineResult, SearchHit, verse_key};
use crate::storage::{AnnV, AnnotationRow, ConnV, MetaV, MetadataRow, ResearchRow, SegRowV,
    Storage, VerseTextRow, ann_v, conn_v, meta_v, hydrated, opt_v};
use crate::table::{Row, first_key_idx};

verus! {

// ----- verse texts --------------------------------------------------------

impl Storage {
    /// Sets the canonical text of a verse, keyed by its coordinates; the
    /// write that backfills verse text without touching token rows.
    pub fn set_verse_text(&mut self, surah: i64, ayah: i64, text: &str) -> (r: EngineResult<()>)
        requires
            old(self).wf(),
        ensures
            final(self).wf(),
            r is Ok,
            final(self).verse_texts_m() == old(self).verse_texts_m().insert(
                (surah as int, ayah as int),
                text@,
            ),
            final(self).surahs == old(self).surahs,
            final(self).verses == old(self).verses,
            final(self).tokens == old(self).tokens,
            final(self).segments == old(self).segments,
            final(self).annotations == old(self).annotations,
            final(self).connections == old(self).connections,
            final(self).metadata == old(self).metadata,
            final(self).research == old(self).research,
            final(self).ann_counter == old(self).ann_counter,
    {
        let vkey = crate::model::interp_key(surah, ayah);
        let row = VerseTextRow { verse_ref: vkey, surah, ayah, text: text.to_owned() };
        let ghost grow = row;
        let _ = self.verse_texts.upsert(row);
        proof {
            let s0 = old(self).verse_texts.sq();
            let s1 = self.verse_texts.sq();
            let fi = first_key_idx(s0, grow.key());
            crate::table::lemma_first_key_idx_props(s0, grow.key());
            assert forall|j: int| 0 <= j < s1.len() implies (#[trigger] s1[j]).verse_ref@
                == verse_key(s1[j].surah as int, s1[j].ayah as int) by {
                if fi >= 0 {
                    if j != fi {
                        assert(s1[j] == s0[j]);
                    }
                } else {
                    if j != s0.len() {
                        assert(s1[j] == s0[j]);
                    }
                }
            }
            assert(self.verse_texts_m() =~= old(self).verse_texts_m().insert(
                (surah as int, ayah as int),
                text@,
            )) by {
                assert forall|c: (int, int)|
                    #![trigger self.verse_texts_m().contains_key(c)]
                    (self.verse_texts_m().contains_key(c) == old(self).verse_texts_m().insert(
                        (surah as int, ayah as int),
                        text@,
                    ).contains_key(c)) && (self.verse_texts_m().contains_key(c)
                        ==> self.verse_texts_m()[c] == old(self).verse_texts_m().insert(
                        (surah as int, ayah as int),
                        text@,
                    )[c]) by {
                    if verse_key(c.0, c.1) == verse_key(surah as int, ayah as int) {
                        crate::model::lemma_verse_key_inject(c.0, c.1, surah as int, ayah as int);
                    }
                }
            }
        }
        Ok(())
    }

    /// The canonical text of a verse, when one is stored.
    pub fn get_verse_text(&self, surah: i64, ayah: i64) -> (r: Option<String>)
        requires
            self.wf(),
        ensures
            r is Some <==> self.verse_texts_m().contains_key((surah as int, ayah as int)),
            r matches Some(t) ==> t@ == self.verse_texts_m()[(surah as int, ayah as int)],
    {
        let vkey = crate::model::interp_key(surah, ayah);
        match self.verse_texts.find(&vkey) {
            Some(row) => Some(row.text.clone()),
            None => None,
        }
    }

    /// Every stored verse text with nonempty text, as `(surah:ayah, text)`
    /// pairs in storage order, up to `limit` rows; what the pattern
    /// matcher scans.
    pub fn get_all_verse_texts(&self, limit: usize) -> (r: Vec<(String, String)>)
        requires
            self.wf(),
        ensures
            r@.len() == min_int(
                limit as int,
                nonempty_texts(self.verse_texts.sq()).len() as int,
            ),
            forall|j: int|
                0 <= j < r@.len() ==> (#[trigger] r@[j]).0@ == nonempty_texts(
                    self.verse_texts.sq(),
                )[j].0 && r@[j].1@ == nonempty_texts(self.verse_texts.sq())[j].1,
    {
        let n = self.verse_texts.row_count();
        let mut out: Vec<(String, String)> = Vec::new();
        let mut i: usize = 0;
        proof {
            assert(self.verse_texts.sq().take(0) =~= Seq::<VerseTextRow>::empty());
        }
        while i < n
            invariant
                i <= n,
                n == self.verse_texts.sq().len(),
                self.wf(),
                out@.len() == min_int(
                    limit as int,
                    nonempty_texts(self.verse_texts.sq().take(i as int)).len() as int,
                ),
                forall|j: int|
                    0 <= j < out@.len() ==> (#[trigger] out@[j]).0@ == nonempty_texts(
                        self.verse_texts.sq().take(i as int),
                    )[j].0 && out@[j].1@ == nonempty_texts(
                        self.verse_texts.sq().take(i as int),
                    )[j].1,
            decreases n - i,
        {
            let row = self.verse_texts.row_at(i);
            proof {
                assert(self.verse_texts.sq().take(i + 1 as int) =~= self.verse_texts.sq().take(
                    i as int,
                ).push(self.verse_texts.sq()[i as int]));
                lemma_nonempty_texts_snoc(
                    self.verse_texts.sq().take(i as int),
                    self.verse_texts.sq()[i as int],
                );
            }
            if out.len() < limit && !row.text.as_str().is_empty() {
                let key = crate::model::interp_key(row.surah, row.ayah);
                out.push((key, row.text.clone()));
            }
            i = i + 1;
        }
        proof {
            assert(self.verse_texts.sq().take(n as int) =~= self.verse_texts.sq());
        }
        out
    }
}

// ----- annotations --------------------------------------------------------

impl Storage {
    /// Files a free-form note under its id: last write wins, and the
    /// note's creation sequence number survives an overwrite.
    pub fn upsert_annotation(&mut self, annotation: &Annotation) -> (r: EngineResult<()>)
        requires
            old(self).wf(),
            old(self).ann_counter < u64::MAX,
        ensures
            final(self).wf(),
            r is Ok,
            final(self).annotations_m() == old(self).annotations_m().insert(
                annotation.id@,
                AnnV {
                    target_id: annotation.target_id@,
                    layer: annotation.layer@,
                    payload: annotation.payload@,
                    created: if old(self).annotations_m().contains_key(annotation.id@) {
                        old(self).annotations_m()[annotation.id@].created
                    } else {
                        old(self).ann_counter as int
                    },
                },
            ),
            final(self).ann_counter == if old(self).annotations_m().contains_key(
                annotation.id@,
            ) {
                old(self).ann_counter as int
            } else {
                old(self).ann_counter + 1
            },
            final(self).surahs == old(self).surahs,
            final(self).verses == old(self).verses,
            final(self).verse_texts == old(self).verse_texts,
            final(self).tokens == old(self).tokens,
            final(self).segments == old(self).segments,
            final(self).connections == old(self).connections,
            final(self).metadata == old(self).metadata,
            final(self).research == old(self).research,
    {
        let existing_created = match self.annotations.find(&annotation.id) {
            Some(row) => Some(row.created),
            None => None,
        };
        proof {
            crate::table::lemma_rows_map_contains(self.annotations.sq(), annotation.id@);
        }
        let created = match existing_created {
            Some(c) => c,
            None => self.ann_counter,
        };
        let row = AnnotationRow { ann: crate::model::dup_annotation(annotation), created };
        let ghost grow = row;
        let _ = self.annotations.upsert(row);
        if existing_created.is_none() {
            self.ann_counter = self.ann_counter + 1;
        }
        proof {
            let s0 = old(self).annotations.sq();
            let s1 = self.annotations.sq();
            let fi = first_key_idx(s0, grow.key());
            crate::table::lemma_first_key_idx_props(s0, grow.key());
            if fi >= 0 {
                crate::table::lemma_rows_map_at(s0, fi);
            }
            assert forall|j: int| 0 <= j < s1.len() implies (#[trigger] s1[j]).created
                < self.ann_counter by {
                if fi >= 0 {
                    if j != fi {
                        assert(s1[j] == s0[j]);
                    }
                } else {
                    if j != s0.len() {
                        assert(s1[j] == s0[j]);
                    }
                }
            }
            assert forall|j1: int, j2: int| 0 <= j1 < j2 < s1.len() implies s1[j1].created
                < s1[j2].created by {
                if fi >= 0 {
                    assert(grow.created == s0[fi].created);
                    if j1 != fi {
                        assert(s1[j1] == s0[j1]);
                    }
                    if j2 != fi {
                        assert(s1[j2] == s0[j2]);
                    }
                } else {
                    if j1 != s0.len() {
                        assert(s1[j1] == s0[j1]);
                    }
                    if j2 != s0.len() {
                        assert(s1[j2] == s0[j2]);
                    }
                }
            }
            assert(self.annotations_m() =~= old(self).annotations_m().insert(
                grow.ann.id@,
                ann_v(grow),
            ));
        }
        Ok(())
    }

    /// Deletes a note by id; absent ids delete nothing.
    pub fn delete_annotation(&mut self, id: &str) -> (r: EngineResult<()>)
        requires
            old(self).wf(),
        ensures
            final(self).wf(),
            r is Ok,
            final(self).annotations_m() == old(self).annotations_m().remove(id@),
            final(self).surahs == old(self).surahs,
            final(self).verses == old(self).verses,
            final(self).verse_texts == old(self).verse_texts,
            final(self).tokens == old(self).tokens,
            final(self).segments == old(self).segments,
            final(self).connections == old(self).connections,
            final(self).metadata == old(self).metadata,
            final(self).research == old(self).research,
    {
        let key = id.to_owned();
        let ghost s0 = self.annotations.sq();
        let removed = self.annotations.remove_key(&key);
        proof {
            let s1 = self.annotations.sq();
            if removed {
                let i = choose|i: int|
                    0 <= i < s0.len() && (#[trigger] s0[i]).key() == key@ && s1 == s0.remove(i);
                assert forall|j: int| 0 <= j < s1.len() implies (#[trigger] s1[j]).created
                    < self.ann_counter by {
                    let j0: int = if j < i { j } else { j + 1 };
                    assert(s1[j] == s0[j0]);
                }
                assert forall|j1: int, j2: int| 0 <= j1 < j2 < s1.len() implies s1[j1].created
                    < s1[j2].created by {
                    let a0: int = if j1 < i { j1 } else { j1 + 1 };
                    let b0: int = if j2 < i { j2 } else { j2 + 1 };
                    assert(s1[j1] == s0[a0]);
                    assert(s1[j2] == s0[b0]);
                }
            }
            assert(self.annotations_m() =~= old(self).annotations_m().remove(id@));
        }
        Ok(())
    }

    /// Every note, newest first, optionally only those on one target.
    pub fn list_annotations(&self, target_filter: Option<&str>) -> (r: EngineResult<
        Vec<Annotation>,
    >)
        requires
            self.wf(),
        ensures
            r is Ok,
            r matches Ok(v) ==> {
                let ms = match_anns(self.annotations.sq(), opt_view(target_filter));
                &&& v@.len() == ms.len()
                &&& forall|j: int|
                    0 <= j < v@.len() ==> ((#[trigger] v@[j]).id@, ann_view(v@[j])) == ms[ms.len()
                        - 1 - j]
            },
    {
        let n = self.annotations.row_count();
        let mut out: Vec<Annotation> = Vec::new();
        let mut i: usize = n;
        proof {
            assert(self.annotations.sq().take(n as int) =~= self.annotations.sq());
        }
        while i > 0
            invariant
                i <= n,
                n == self.annotations.sq().len(),
                self.wf(),
                ({
                    let ms = match_anns(self.annotations.sq(), opt_view(target_filter));
                    let mi = match_anns(
                        self.annotations.sq().take(i as int),
                        opt_view(target_filter),
                    );
                    &&& out@.len() + mi.len() == ms.len()
                    &&& forall|j: int|
                        0 <= j < out@.len() ==> ((#[trigger] out@[j]).id@, ann_view(out@[j]))
                            == ms[ms.len() - 1 - j]
                    &&& forall|j: int| 0 <= j < mi.len() ==> #[trigger] ms[j] == mi[j]
                }),
            decreases i,
        {
            i = i - 1;
            let row = self.annotations.row_at(i);
            proof {
                assert(self.annotations.sq().take(i + 1 as int) =~= self.annotations.sq().take(
                    i as int,
                ).push(self.annotations.sq()[i as int]));
                lemma_match_anns_snoc(
                    self.annotations.sq().take(i as int),
                    self.annotations.sq()[i as int],
                    opt_view(target_filter),
                );
            }
            let keep = match target_filter {
                None => true,
                Some(t) => {
                    let tt = t.to_owned();
                    row.ann.target_id == tt
                },
            };
            if keep {
                out.push(crate::model::dup_annotation(&row.ann));
            }
        }
        proof {
            assert(self.annotations.sq().take(0) =~= Seq::<AnnotationRow>::empty());
        }
        Ok(out)
    }

    /// The number of stored notes.
    pub fn count_annotations(&self) -> (r: usize)
        ensures
            r == self.annotations.sq().len(),
    {
        self.annotations.row_count()
    }
}

pub open spec fn opt_view(o: Option<&str>) -> Option<Seq<char>> {
    match o {
        Some(s) => Some(s@),
        None => None,
    }
}

pub open spec fn ann_view(a: Annotation) -> AnnV {
    AnnV { target_id: a.target_id@, layer: a.layer@, payload: a.payload@, created: 0 }
}

/// The notes matching a target filter, oldest first, as `(id, contents)`.
pub open spec fn match_anns(s: Seq<AnnotationRow>, t: Option<Seq<char>>) -> Seq<
    (Seq<char>, AnnV),
>
    decreases s.len(),
{
    if s.len() == 0 {
        Seq::empty()
    } else {
        let rest = match_anns(s.drop_last(), t);
        if ann_target_matches(s.last(), t) {
            rest.push((s.last().ann.id@, ann_view(s.last().ann)))
        } else {
            rest
        }
    }
}

pub open spec fn ann_target_matches(r: AnnotationRow, t: Option<Seq<char>>) -> bool {
    match t {
        None => true,
        Some(tv) => r.ann.target_id@ == tv,
    }
}

proof fn lemma_match_anns_snoc(s: Seq<AnnotationRow>, x: AnnotationRow, t: Option<Seq<char>>)
    ensures
        match_anns(s.push(x), t) == if ann_target_matches(x, t) {
            match_anns(s, t).push((x.ann.id@, ann_view(x.ann)))
        } else {
            match_anns(s, t)
        },
{
    assert(s.push(x).drop_last() =~= s);
    assert(s.push(x).last() == x);
}

// ----- connections --------------------------------------------------------

impl Storage {
    /// Files a typed edge between two tokens under its id.
    pub fn upsert_connection(&mut self, conn: &ConnectionRecord) -> (r: EngineResult<()>)
        requires
            old(self).wf(),
        ensures
            final(self).wf(),
            r is Ok,
            final(self).connections_m() == old(self).connections_m().insert(
                conn.id@,
                conn_v(*conn),
            ),
            final(self).surahs == old(self).surahs,
            final(self).verses == old(self).verses,
            final(self).verse_texts == old(self).verse_texts,
            final(self).tokens == old(self).tokens,
            final(self).segments == old(self).segments,
            final(self).annotations == old(self).annotations,
            final(self).metadata == old(self).metadata,
            final(self).research == old(self).research,
            final(self).ann_counter == old(self).ann_counter,
    {
        let row = crate::model::dup_connection(conn);
        let _ = self.connections.upsert(row);
        proof {
            assert(self.connections_m() =~= old(self).connections_m().insert(
                conn.id@,
                conn_v(*conn),
            ));
        }
        Ok(())
    }

    /// Deletes an edge by id; absent ids delete nothing.
    pub fn delete_connection(&mut self, id: &str) -> (r: EngineResult<()>)
        requires
            old(self).wf(),
        ensures
            final(self).wf(),
            r is Ok,
            final(self).connections_m() == old(self).connections_m().remove(id@),
            final(self).surahs == old(self).surahs,
            final(self).verses == old(self).verses,
            final(self).verse_texts == old(self).verse_texts,
            final(self).tokens == old(self).tokens,
            final(self).segments == old(self).segments,
            final(self).annotations == old(self).annotations,
            final(self).metadata == old(self).metadata,
            final(self).research == old(self).research,
            final(self).ann_counter == old(self).ann_counter,
    {
        let key = id.to_owned();
        let _ = self.connections.remove_key(&key);
        proof {
            assert(self.connections_m() =~= old(self).connections_m().remove(id@));
        }
        Ok(())
    }

    /// The edges whose source token belongs to a verse, in storage order.
    pub fn list_connections_for_verse(&self, surah: i64, ayah: i64) -> (r: EngineResult<
        Vec<ConnectionRecord>,
    >)
        requires
            self.wf(),
        ensures
            r is Ok,
            r matches Ok(v) ==> {
                let ms = verse_conns(self, surah as int, ayah as int);
                &&& v@.len() == ms.len()
                &&& forall|j: int|
                    0 <= j < v@.len() ==> ((#[trigger] v@[j]).id@, conn_v(v@[j])) == ms[j]
            },
    {
        let n = self.connections.row_count();
        let mut out: Vec<ConnectionRecord> = Vec::new();
        let mut i: usize = 0;
        proof {
            assert(self.connections.sq().take(0) =~= Seq::<ConnectionRecord>::empty());
        }
        while i < n
            invariant
                i <= n,
                n == self.connections.sq().len(),
                self.wf(),
                ({
                    let ms = conns_from(
                        self.connections.sq().take(i as int),
                        self.tokens_m(),
                        surah as int,
                        ayah as int,
                    );
                    &&& out@.len() == ms.len()
                    &&& forall|j: int|
                        0 <= j < out@.len() ==> ((#[trigger] out@[j]).id@, conn_v(out@[j]))
                            == ms[j]
                }),
            decreases n - i,
        {
            let row = self.connections.row_at(i);
            proof {
                assert(self.connections.sq().take(i + 1 as int) =~= self.connections.sq().take(
                    i as int,
                ).push(self.connections.sq()[i as int]));
                lemma_conns_from_snoc(
                    self.connections.sq().take(i as int),
                    self.connections.sq()[i as int],
                    self.tokens_m(),
                    surah as int,
                    ayah as int,
                );
            }
            let keep = match self.tokens.find(&row.from_token) {
                Some(tok) => tok.surah == surah && tok.ayah == ayah,
                None => false,
            };
            if keep {
                out.push(crate::model::dup_connection(row));
            }
            i = i + 1;
        }
        proof {
            assert(self.connections.sq().take(n as int) =~= self.connections.sq());
        }
        Ok(out)
    }
}

/// The edges of a verse: those whose source token row carries the verse's
/// coordinates.
pub open spec fn verse_conns(st: &Storage, surah: int, ayah: int) -> Seq<(Seq<char>, ConnV)> {
    conns_from(st.connections.sq(), st.tokens_m(), surah, ayah)
}

pub open spec fn conn_from_verse(
    c: ConnectionRecord,
    toks: Map<Seq<char>, crate::storage::TokV>,
    surah: int,
    ayah: int,
) -> bool {
    toks.contains_key(c.from_token@) && toks[c.from_token@].surah == surah
        && toks[c.from_token@].ayah == ayah
}

pub open spec fn conns_from(
    s: Seq<ConnectionRecord>,
    toks: Map<Seq<char>, crate::storage::TokV>,
    surah: int,
    ayah: int,
) -> Seq<(Seq<char>, ConnV)>
    decreases s.len(),
{
    if s.len() == 0 {
        Seq::empty()
    } else {
        let rest = conns_from(s.drop_last(), toks, surah, ayah);
        if conn_from_verse(s.last(), toks, surah, ayah) {
            rest.push((s.last().id@, conn_v(s.last())))
        } else {
            rest
        }
    }
}

proof fn lemma_conns_from_snoc(
    s: Seq<ConnectionRecord>,
    x: ConnectionRecord,
    toks: Map<Seq<char>, crate::storage::TokV>,
    surah: int,
    ayah: int,
)
    ensures
        conns_from(s.push(x), toks, surah, ayah) == if conn_from_verse(x, toks, surah, ayah) {
            conns_from(s, toks, surah, ayah).push((x.id@, conn_v(x)))
        } else {
            conns_from(s, toks, surah, ayah)
        },
{
    assert(s.push(x).drop_last() =~= s);
    assert(s.push(x).last() == x);
}

// ----- per-verse metadata and research data -------------------------------

impl Storage {
    /// One metadata column of a verse: `pronouns`, `hypotheses` or
    /// `translations`; any other field name is invalid.
    pub fn get_verse_metadata(&self, verse_ref: &str, field: &str) -> (r: EngineResult<
        Option<String>,
    >)
        requires
            self.wf(),
        ensures
            (field@ == "pronouns"@ || field@ == "hypotheses"@ || field@ == "translations"@) <==> r
                is Ok,
            r is Err ==> (r matches Err(e) && e is Invalid),
            r matches Ok(o) ==> crate::storage::opt_v(o) == meta_field(
                self.metadata_m(),
                verse_ref@,
                field@,
            ),
    {
        let fv = crate::text::chars_of(field);
        let is_p = crate::text::chars_eq_str(&fv, "pronouns");
        let is_h = crate::text::chars_eq_str(&fv, "hypotheses");
        let is_t = crate::text::chars_eq_str(&fv, "translations");
        if !(is_p || is_h || is_t) {
            return Err(EngineError::Invalid(String::new()));
        }
        let key = verse_ref.to_owned();
        match self.metadata.find(&key) {
            None => Ok(None),
            Some(row) => {
                if is_p {
                    Ok(crate::model::dup_opt_string(&row.pronouns))
                } else if is_h {
                    Ok(crate::model::dup_opt_string(&row.hypotheses))
                } else {
                    Ok(crate::model::dup_opt_string(&row.translations))
                }
            },
        }
    }

    /// Sets one metadata column of a verse, leaving the others in place;
    /// a row is created when the verse had none.
    pub fn set_verse_metadata(&mut self, verse_ref: &str, field: &str, data: &str) -> (r:
        EngineResult<()>)
        requires
            old(self).wf(),
        ensures
            final(self).wf(),
            (field@ == "pronouns"@ || field@ == "hypotheses"@ || field@ == "translations"@) <==> r
                is Ok,
            r is Err ==> (r matches Err(e) && e is Invalid) && *final(self) == *old(self),
            r is Ok ==> final(self).metadata_m() == old(self).metadata_m().insert(
                verse_ref@,
                updated_meta(old(self).metadata_m(), verse_ref@, field@, data@),
            ),
            final(self).surahs == old(self).surahs,
            final(self).verses == old(self).verses,
            final(self).verse_texts == old(self).verse_texts,
            final(self).tokens == old(self).tokens,
            final(self).segments == old(self).segments,
            final(self).annotations == old(self).annotations,
            final(self).connections == old(self).connections,
            final(self).research == old(self).research,
            final(self).ann_counter == old(self).ann_counter,
    {
        let fv = crate::text::chars_of(field);
        let is_p = crate::text::chars_eq_str(&fv, "pronouns");
        let is_h = crate::text::chars_eq_str(&fv, "hypotheses");
        let is_t = crate::text::chars_eq_str(&fv, "translations");
        if !(is_p || is_h || is_t) {
            return Err(EngineError::Invalid(String::new()));
        }
        let key = verse_ref.to_owned();
        let (old_p, old_h, old_t) = match self.metadata.find(&key) {
            Some(row) => (
                crate::model::dup_opt_string(&row.pronouns),
                crate::model::dup_opt_string(&row.hypotheses),
                crate::model::dup_opt_string(&row.translations),
            ),
            None => (None, None, None),
        };
        let row = MetadataRow {
            verse_ref: key,
            pronouns: if is_p {
                Some(data.to_owned())
            } else {
                old_p
            },
            hypotheses: if is_h {
                Some(data.to_owned())
            } else {
                old_h
            },
            translations: if is_t {
                Some(data.to_owned())
            } else {
                old_t
            },
        };
        let ghost grow = row;
        let _ = self.metadata.upsert(row);
        proof {
            assert(meta_v(grow) == updated_meta(old(self).metadata_m(), verse_ref@, field@, data@));
            assert(self.metadata_m() =~= old(self).metadata_m().insert(
                verse_ref@,
                updated_meta(old(self).metadata_m(), verse_ref@, field@, data@),
            ));
        }
        Ok(())
    }

    /// A value from the research key/value store.
    pub fn get_research_data(&self, key: &str) -> (r: EngineResult<Option<String>>)
        requires
            self.wf(),
        ensures
            r is Ok,
            r matches Ok(o) ==> {
                &&& o is Some <==> self.research_m().contains_key(key@)
                &&& (o matches Some(v) ==> v@ == self.research_m()[key@])
            },
    {
        let k = key.to_owned();
        match self.research.find(&k) {
            Some(row) => Ok(Some(row.value.clone())),
            None => Ok(None),
        }
    }

    /// Stores a value in the research key/value store; last write wins.
    pub fn set_research_data(&mut self, key: &str, value: &str) -> (r: EngineResult<()>)
        requires
            old(self).wf(),
        ensures
            final(self).wf(),
            r is Ok,
            final(self).research_m() == old(self).research_m().insert(key@, value@),
            final(self).surahs == old(self).surahs,
            final(self).verses == old(self).verses,
            final(self).verse_texts == old(self).verse_texts,
            final(self).tokens == old(self).tokens,
            final(self).segments == old(self).segments,
            final(self).annotations == old(self).annotations,
            final(self).connections == old(self).connections,
            final(self).metadata == old(self).metadata,
            final(self).ann_counter == old(self).ann_counter,
    {
        let row = ResearchRow { name: key.to_owned(), value: value.to_owned() };
        let _ = self.research.upsert(row);
        proof {
            assert(self.research_m() =~= old(self).research_m().insert(key@, value@));
        }
        Ok(())
    }
}

/// The chosen metadata column of a verse, absent when the verse has no
/// row or the column is unset.
pub open spec fn meta_field(
    m: Map<Seq<char>, MetaV>,
    verse_ref: Seq<char>,
    field: Seq<char>,
) -> Option<Seq<char>> {
    if !m.contains_key(verse_ref) {
        None
    } else if field == "pronouns"@ {
        m[verse_ref].pronouns
    } else if field == "hypotheses"@ {
        m[verse_ref].hypotheses
    } else {
        m[verse_ref].translations
    }
}

/// A verse's metadata record with one column replaced.
pub open spec fn updated_meta(
    m: Map<Seq<char>, MetaV>,
    verse_ref: Seq<char>,
    field: Seq<char>,
    data: Seq<char>,
) -> MetaV {
    let base = if m.contains_key(verse_ref) {
        m[verse_ref]
    } else {
        MetaV { pronouns: None, hypotheses: None, translations: None }
    };
    MetaV {
        pronouns: if field == "pronouns"@ {
            Some(data)
        } else {
            base.pronouns
        },
        hypotheses: if field == "hypotheses"@ {
            Some(data)
        } else {
            base.hypotheses
        },
        translations: if field == "translations"@ {
            Some(data)
        } else {
            base.translations
        },
    }
}

// ----- hydration, distinct listings and counts ----------------------------

/// The ids among the hits that the store knows, in hit order.
pub open spec fn known_ids(st: Storage, hits: Seq<Seq<char>>) -> Seq<Seq<char>>
    decreases hits.len(),
{
    if hits.len() == 0 {
        Seq::empty()
    } else {
        let rest = known_ids(st, hits.drop_last());
        if st.tokens_m().contains_key(hits.last()) {
            rest.push(hits.last())
        } else {
            rest
        }
    }
}

proof fn lemma_known_ids_snoc(st: Storage, hits: Seq<Seq<char>>, x: Seq<char>)
    ensures
        known_ids(st, hits.push(x)) == if st.tokens_m().contains_key(x) {
            known_ids(st, hits).push(x)
        } else {
            known_ids(st, hits)
        },
{
    assert(hits.push(x).drop_last() =~= hits);
    assert(hits.push(x).last() == x);
}

impl Storage {
    /// Resolves bare search hits into full token records; hits whose id
    /// the store does not know are skipped, the rest keep hit order.
    pub fn hydrate_segments(&self, ids: &Vec<SearchHit>) -> (r: EngineResult<
        Vec<crate::model::SegmentView>,
    >)
        requires
            self.wf(),
        ensures
            r is Ok,
            r matches Ok(v) ==> {
                let ks = known_ids(*self, ids@.map_values(|h: SearchHit| h.id@));
                &&& v@.len() == ks.len()
                &&& forall|j: int| 0 <= j < v@.len() ==> hydrated(*self, ks[j], #[trigger] v@[j])
            },
    {
        let ghost keys = ids@.map_values(|h: SearchHit| h.id@);
        let mut out: Vec<crate::model::SegmentView> = Vec::new();
        let mut i: usize = 0;
        proof {
            assert(keys.take(0) =~= Seq::<Seq<char>>::empty());
        }
        while i < ids.len()
            invariant
                i <= ids@.len(),
                keys == ids@.map_values(|h: SearchHit| h.id@),
                self.wf(),
                out@.len() == known_ids(*self, keys.take(i as int)).len(),
                forall|j: int|
                    0 <= j < out@.len() ==> hydrated(
                        *self,
                        known_ids(*self, keys.take(i as int))[j],
                        #[trigger] out@[j],
                    ),
            decreases ids@.len() - i,
        {
            proof {
                assert(keys.take(i + 1 as int) =~= keys.take(i as int).push(keys[i as int]));
                lemma_known_ids_snoc(*self, keys.take(i as int), keys[i as int]);
            }
            match self.get_segment(ids[i].id.as_str()) {
                Ok(Some(d)) => {
                    out.push(d);
                },
                Ok(None) => {
                },
                Err(_) => {
                },
            }
            i = i + 1;
        }
        proof {
            assert(keys.take(ids@.len() as int) =~= keys);
        }
        Ok(out)
    }
}

/// Strictly ascending lexicographic order over string views; strictness
/// makes the list duplicate-free.
pub open spec fn sorted_strict(vs: Seq<Seq<char>>) -> bool {
    forall|i: int, j: int| 0 <= i < j < vs.len() ==> crate::text::lex_lt(vs[i], vs[j])
}

/// The views of a string vector.
pub open spec fn str_views(v: Seq<String>) -> Seq<Seq<char>> {
    v.map_values(|s: String| s@)
}

/// Inserts a value into a sorted duplicate-free list, keeping it sorted;
/// a value already present is left alone.
fn insert_sorted(out: &mut Vec<String>, v: &String)
    requires
        sorted_strict(str_views(old(out)@)),
    ensures
        sorted_strict(str_views(final(out)@)),
        forall|x: Seq<char>|
            #[trigger] str_views(final(out)@).contains(x) <==> (str_views(
                old(out)@,
            ).contains(x) || x == v@),
{
    let vv = crate::text::chars_of(v.as_str());
    let n = out.len();
    let mut i: usize = 0;
    while i < n && crate::text::lex_lt_chars(&crate::text::chars_of(out[i].as_str()), &vv)
        invariant
            i <= n,
            n == out@.len(),
            vv@ == v@,
            forall|k: int| 0 <= k < i ==> crate::text::lex_lt(#[trigger] out@[k]@, v@),
        decreases n - i,
    {
        i = i + 1;
    }
    if i < n && !crate::text::lex_lt_chars(&vv, &crate::text::chars_of(out[i].as_str())) {
        // Neither order holds: the value is already listed here.
        proof {
            crate::text::lemma_lex_total(v@, out@[i as int]@);
            assert forall|x: Seq<char>|
                #[trigger] str_views(out@).contains(x) <==> (str_views(out@).contains(x) || x
                    == v@) by {
                if x == v@ {
                    assert(str_views(out@)[i as int] == v@);
                }
            }
        }
        return ;
    }
    let ghost pre = out@;
    out.insert(i, v.clone());
    proof {
        assert(str_views(out@) =~= str_views(pre).insert(i as int, v@));
        let nv = str_views(out@);
        let ov = str_views(pre);
        assert forall|p: int, q: int| 0 <= p < q < nv.len() implies crate::text::lex_lt(
            nv[p],
            nv[q],
        ) by {
            if q < i {
                assert(nv[p] == ov[p] && nv[q] == ov[q]);
            } else if p < i && q == i {
                assert(nv[p] == ov[p]);
            } else if p < i && q > i {
                assert(nv[p] == ov[p] && nv[q] == ov[q - 1]);
                if q - 1 == p {
                    assert(false);
                }
            } else if p == i {
                assert(nv[q] == ov[q - 1]);
                if i < pre.len() {
                    assert(crate::text::lex_lt(v@, ov[i as int]));
                    if q - 1 > i {
                        crate::text::lemma_lex_trans(v@, ov[i as int], ov[q - 1]);
                    }
                } else {
                    assert(false);
                }
            } else {
                assert(nv[p] == ov[p - 1] && nv[q] == ov[q - 1]);
            }
        }
        assert forall|x: Seq<char>|
            #[trigger] str_views(out@).contains(x) <==> (str_views(pre).contains(x) || x
                == v@) by {
            if str_views(out@).contains(x) {
                let w = choose|w: int|
                    0 <= w < str_views(out@).len() && str_views(out@)[w] == x;
                if w == i {
                } else if w < i {
                    assert(str_views(pre)[w] == x);
                } else {
                    assert(str_views(pre)[w - 1] == x);
                }
            }
            if str_views(pre).contains(x) {
                let w = choose|w: int|
                    0 <= w < str_views(pre).len() && str_views(pre)[w] == x;
                if w < i {
                    assert(str_views(out@)[w] == x);
                } else {
                    assert(str_views(out@)[w + 1] == x);
                }
            }
            if x == v@ {
                assert(str_views(out@)[i as int] == x);
            }
        }
    }
}

impl Storage {
    /// The distinct root values among all segments, in ascending
    /// lexicographic order: exactly the set of present roots, sorted and
    /// duplicate-free.
    pub fn list_unique_roots(&self) -> (r: EngineResult<Vec<String>>)
        requires
            self.wf(),
        ensures
            r is Ok,
            r matches Ok(v) ==> {
                &&& sorted_strict(str_views(v@))
                &&& forall|x: Seq<char>|
                    #[trigger] str_views(v@).contains(x) <==> exists|j: int|
                        0 <= j < self.segments.sq().len() && opt_v(
                            (#[trigger] self.segments.sq()[j]).seg.root,
                        ) == Some(x)
            },
    {
        let n = self.segments.row_count();
        let mut out: Vec<String> = Vec::new();
        let mut i: usize = 0;
        proof {
            assert(str_views(out@) =~= Seq::<Seq<char>>::empty());
        }
        while i < n
            invariant
                i <= n,
                n == self.segments.sq().len(),
                self.wf(),
                sorted_strict(str_views(out@)),
                forall|x: Seq<char>|
                    #[trigger] str_views(out@).contains(x) <==> exists|j: int|
                        0 <= j < i && opt_v((#[trigger] self.segments.sq()[j]).seg.root)
                            == Some(x),
            decreases n - i,
        {
            let row = self.segments.row_at(i);
            match &row.seg.root {
                Some(root) => {
                    let ghost pre = out@;
                    insert_sorted(&mut out, root);
                    proof {
                        assert forall|x: Seq<char>|
                            #[trigger] str_views(out@).contains(x) <==> exists|j: int|
                                0 <= j < i + 1 && opt_v(
                                    (#[trigger] self.segments.sq()[j]).seg.root,
                                ) == Some(x) by {
                            if str_views(out@).contains(x) {
                                if str_views(pre).contains(x) {
                                    let j = choose|j: int|
                                        0 <= j < i && opt_v(
                                            (#[trigger] self.segments.sq()[j]).seg.root,
                                        ) == Some(x);
                                    assert(opt_v(self.segments.sq()[j].seg.root) == Some(x));
                                } else {
                                    assert(opt_v(self.segments.sq()[i as int].seg.root)
                                        == Some(x));
                                }
                            }
                            if exists|j: int|
                                0 <= j < i + 1 && opt_v(
                                    (#[trigger] self.segments.sq()[j]).seg.root,
                                ) == Some(x) {
                                let j = choose|j: int|
                                    0 <= j < i + 1 && opt_v(
                                        (#[trigger] self.segments.sq()[j]).seg.root,
                                    ) == Some(x);
                                if j < i {
                                    assert(str_views(pre).contains(x));
                                }
                            }
                        }
                    }
                },
                None => {
                    proof {
                        assert forall|x: Seq<char>|
                            #[trigger] str_views(out@).contains(x) <==> exists|j: int|
                                0 <= j < i + 1 && opt_v(
                                    (#[trigger] self.segments.sq()[j]).seg.root,
                                ) == Some(x) by {
                            if exists|j: int|
                                0 <= j < i + 1 && opt_v(
                                    (#[trigger] self.segments.sq()[j]).seg.root,
                                ) == Some(x) {
                                let j = choose|j: int|
                                    0 <= j < i + 1 && opt_v(
                                        (#[trigger] self.segments.sq()[j]).seg.root,
                                    ) == Some(x);
                                assert(j < i);
                            }
                        }
                    }
                },
            }
            i = i + 1;
        }
        Ok(out)
    }

    /// The distinct pattern values among all segments, in ascending
    /// lexicographic order.
    pub fn list_unique_patterns(&self) -> (r: EngineResult<Vec<String>>)
        requires
            self.wf(),
        ensures
            r is Ok,
            r matches Ok(v) ==> {
                &&& sorted_strict(str_views(v@))
                &&& forall|x: Seq<char>|
                    #[trigger] str_views(v@).contains(x) <==> exists|j: int|
                        0 <= j < self.segments.sq().len() && opt_v(
                            (#[trigger] self.segments.sq()[j]).seg.pattern,
                        ) == Some(x)
            },
    {
        let n = self.segments.row_count();
        let mut out: Vec<String> = Vec::new();
        let mut i: usize = 0;
        proof {
            assert(str_views(out@) =~= Seq::<Seq<char>>::empty());
        }
        while i < n
            invariant
                i <= n,
                n == self.segments.sq().len(),
                self.wf(),
                sorted_strict(str_views(out@)),
                forall|x: Seq<char>|
                    #[trigger] str_views(out@).contains(x) <==> exists|j: int|
                        0 <= j < i && opt_v((#[trigger] self.segments.sq()[j]).seg.pattern)
                            == Some(x),
            decreases n - i,
        {
            let row = self.segments.row_at(i);
            match &row.seg.pattern {
                Some(pattern) => {
                    let ghost pre = out@;
                    insert_sorted(&mut out, pattern);
                    proof {
                        assert forall|x: Seq<char>|
                            #[trigger] str_views(out@).contains(x) <==> exists|j: int|
                                0 <= j < i + 1 && opt_v(
                                    (#[trigger] self.segments.sq()[j]).seg.pattern,
                                ) == Some(x) by {
                            if str_views(out@).contains(x) {
                                if str_views(pre).contains(x) {
                                    let j = choose|j: int|
                                        0 <= j < i && opt_v(
                                            (#[trigger] self.segments.sq()[j]).seg.pattern,
                                        ) == Some(x);
                                    assert(opt_v(self.segments.sq()[j].seg.pattern) == Some(x));
                                } else {
                                    assert(opt_v(self.segments.sq()[i as int].seg.pattern)
                                        == Some(x));
                                }
                            }
                            if exists|j: int|
                                0 <= j < i + 1 && opt_v(
                                    (#[trigger] self.segments.sq()[j]).seg.pattern,
                                ) == Some(x) {
                                let j = choose|j: int|
                                    0 <= j < i + 1 && opt_v(
                                        (#[trigger] self.segments.sq()[j]).seg.pattern,
                                    ) == Some(x);
                                if j < i {
                                    assert(str_views(pre).contains(x));
                                }
                            }
                        }
                    }
                },
                None => {
                    proof {
                        assert forall|x: Seq<char>|
                            #[trigger] str_views(out@).contains(x) <==> exists|j: int|
                                0 <= j < i + 1 && opt_v(
                                    (#[trigger] self.segments.sq()[j]).seg.pattern,
                                ) == Some(x) by {
                            if exists|j: int|
                                0 <= j < i + 1 && opt_v(
                                    (#[trigger] self.segments.sq()[j]).seg.pattern,
                                ) == Some(x) {
                                let j = choose|j: int|
                                    0 <= j < i + 1 && opt_v(
                                        (#[trigger] self.segments.sq()[j]).seg.pattern,
                                    ) == Some(x);
                                assert(j < i);
                            }
                        }
                    }
                },
            }
            i = i + 1;
        }
        Ok(out)
    }

    /// The distinct part-of-speech values among all segments, in
    /// ascending lexicographic order.
    pub fn list_unique_pos(&self) -> (r: EngineResult<Vec<String>>)
        requires
            self.wf(),
        ensures
            r is Ok,
            r matches Ok(v) ==> {
                &&& sorted_strict(str_views(v@))
                &&& forall|x: Seq<char>|
                    #[trigger] str_views(v@).contains(x) <==> exists|j: int|
                        0 <= j < self.segments.sq().len() && opt_v(
                            (#[trigger] self.segments.sq()[j]).seg.pos,
                        ) == Some(x)
            },
    {
        let n = self.segments.row_count();
        let mut out: Vec<String> = Vec::new();
        let mut i: usize = 0;
        proof {
            assert(str_views(out@) =~= Seq::<Seq<char>>::empty());
        }
        while i < n
            invariant
                i <= n,
                n == self.segments.sq().len(),
                self.wf(),
                sorted_strict(str_views(out@)),
                forall|x: Seq<char>|
                    #[trigger] str_views(out@).contains(x) <==> exists|j: int|
                        0 <= j < i && opt_v((#[trigger] self.segments.sq()[j]).seg.pos)
                            == Some(x),
            decreases n - i,
        {
            let row = self.segments.row_at(i);
            match &row.seg.pos {
                Some(pos) => {
                    let ghost pre = out@;
                    insert_sorted(&mut out, pos);
                    proof {
                        assert forall|x: Seq<char>|
                            #[trigger] str_views(out@).contains(x) <==> exists|j: int|
                                0 <= j < i + 1 && opt_v(
                                    (#[trigger] self.segments.sq()[j]).seg.pos,
                                ) == Some(x) by {
                            if str_views(out@).contains(x) {
                                if str_views(pre).contains(x) {
                                    let j = choose|j: int|
                                        0 <= j < i && opt_v(
                                            (#[trigger] self.segments.sq()[j]).seg.pos,
                                        ) == Some(x);
                                    assert(opt_v(self.segments.sq()[j].seg.pos) == Some(x));
                                } else {
                                    assert(opt_v(self.segments.sq()[i as int].seg.pos)
                                        == Some(x));
                                }
                            }
                            if exists|j: int|
                                0 <= j < i + 1 && opt_v(
                                    (#[trigger] self.segments.sq()[j]).seg.pos,
                                ) == Some(x) {
                                let j = choose|j: int|
                                    0 <= j < i + 1 && opt_v(
                                        (#[trigger] self.segments.sq()[j]).seg.pos,
                                    ) == Some(x);
                                if j < i {
                                    assert(str_views(pre).contains(x));
                                }
                            }
                        }
                    }
                },
                None => {
                    proof {
                        assert forall|x: Seq<char>|
                            #[trigger] str_views(out@).contains(x) <==> exists|j: int|
                                0 <= j < i + 1 && opt_v(
                                    (#[trigger] self.segments.sq()[j]).seg.pos,
                                ) == Some(x) by {
                            if exists|j: int|
                                0 <= j < i + 1 && opt_v(
                                    (#[trigger] self.segments.sq()[j]).seg.pos,
                                ) == Some(x) {
                                let j = choose|j: int|
                                    0 <= j < i + 1 && opt_v(
                                        (#[trigger] self.segments.sq()[j]).seg.pos,
                                    ) == Some(x);
                                assert(j < i);
                            }
                        }
                    }
                },
            }
            i = i + 1;
        }
        Ok(out)
    }

    /// The number of verse coordinates known to the store.
    pub fn count_verses(&self) -> (r: usize)
        ensures
            r == self.verses.sq().len(),
    {
        self.verses.row_count()
    }
}

// ----- nested verse reads ---------------------------------------------------

/// One token of a rebuilt verse: its position, surface text and segments.
pub struct VerseToken {
    pub index: usize,
    pub text: String,
    pub segments: Vec<crate::model::Segment>,
}

/// A verse rebuilt from the normalized tables.
pub struct VerseData {
    pub surah_number: i64,
    pub surah_name: String,
    pub ayah: i64,
    pub text: String,
    pub tokens: Vec<VerseToken>,
}

/// The highest token position among the rows of one verse, `-1` when the
/// verse has none.
pub open spec fn max_tok_idx(rows: Seq<crate::storage::TokenRow>, su: int, ay: int) -> int
    decreases rows.len(),
{
    if rows.len() == 0 {
        -1
    } else {
        let m = max_tok_idx(rows.drop_last(), su, ay);
        if rows.last().surah as int == su && rows.last().ayah as int == ay
            && rows.last().token_index as int > m {
            rows.last().token_index as int
        } else {
            m
        }
    }
}

proof fn lemma_max_tok_bound(rows: Seq<crate::storage::TokenRow>, su: int, ay: int, j: int)
    requires
        0 <= j < rows.len(),
        rows[j].surah as int == su,
        rows[j].ayah as int == ay,
    ensures
        rows[j].token_index as int <= max_tok_idx(rows, su, ay),
    decreases rows.len(),
{
    if j == rows.len() - 1 {
        lemma_max_ge_rec(rows, su, ay);
    } else {
        assert(rows.drop_last()[j] == rows[j]);
        lemma_max_tok_bound(rows.drop_last(), su, ay, j);
    }
}

proof fn lemma_max_ge_rec(rows: Seq<crate::storage::TokenRow>, su: int, ay: int)
    requires
        rows.len() > 0,
    ensures
        max_tok_idx(rows, su, ay) >= max_tok_idx(rows.drop_last(), su, ay),
{
}

/// The longest of a list of texts, the later of equals winning; what the
/// verse text falls back to when no canonical text is stored.
pub open spec fn pick_longest(ts: Seq<Seq<char>>) -> Seq<char>
    decreases ts.len(),
{
    if ts.len() == 0 {
        Seq::empty()
    } else {
        let p = pick_longest(ts.drop_last());
        if ts.last().len() >= p.len() {
            ts.last()
        } else {
            p
        }
    }
}

/// What one collected verse token promises: its canonical id is stored,
/// its text is the row's, and its segments are the ones filed under the
/// id, in storage order.
pub open spec fn token_facts(st: Storage, su: int, ay: int, t: VerseToken) -> bool {
    let key = crate::model::token_key(su, ay, t.index as int);
    &&& st.tokens_m().contains_key(key)
    &&& t.text@ == st.tokens_m()[key].text
    &&& crate::storage::seg_views_of(t.segments@) == crate::storage::token_segs(
        st.segments_sv(),
        key,
    )
}

impl Storage {
    /// Appends the token at one position of a verse, when the store holds
    /// it.
    fn collect_token_at(&self, surah: i64, ayah: i64, idx: usize, toks: &mut Vec<VerseToken>)
        requires
            self.wf(),
        ensures
            ({
                let key = crate::model::token_key(surah as int, ayah as int, idx as int);
                if self.tokens_m().contains_key(key) {
                    &&& final(toks)@.len() == old(toks)@.len() + 1
                    &&& (forall|i: int|
                        0 <= i < old(toks)@.len() ==> #[trigger] final(toks)@[i] == old(
                            toks,
                        )@[i])
                    &&& final(toks)@.last().index == idx
                    &&& token_facts(*self, surah as int, ayah as int, final(toks)@.last())
                } else {
                    final(toks)@ == old(toks)@
                }
            }),
    {
        let key = crate::model::token_uid(surah, ayah, idx);
        match self.tokens.find(&key) {
            Some(row) => {
                let text = row.text.clone();
                // The segments filed under this canonical id.
                let mut segs: Vec<crate::model::Segment> = Vec::new();
                let sn = self.segments.row_count();
                let mut si: usize = 0;
                proof {
                    assert(self.segments_sv().take(0) =~= Seq::<SegRowV>::empty());
                    assert(crate::storage::seg_views_of(segs@) =~= Seq::<
                        crate::storage::SegV,
                    >::empty());
                }
                while si < sn
                    invariant
                        si <= sn,
                        sn == self.segments.sq().len(),
                        self.wf(),
                        key@ == crate::model::token_key(surah as int, ayah as int, idx as int),
                        crate::storage::seg_views_of(segs@) == crate::storage::token_segs(
                            self.segments_sv().take(si as int),
                            key@,
                        ),
                    decreases sn - si,
                {
                    let srow = self.segments.row_at(si);
                    proof {
                        assert(self.segments_sv()[si as int] == crate::storage::seg_row_v(
                            self.segments.sq()[si as int],
                        ));
                        assert(self.segments_sv().take(si + 1 as int) =~= self.segments_sv().take(
                            si as int,
                        ).push(self.segments_sv()[si as int]));
                        crate::storage::lemma_token_segs_snoc(
                            self.segments_sv().take(si as int),
                            self.segments_sv()[si as int],
                            key@,
                        );
                    }
                    if srow.token_id == key {
                        segs.push(crate::model::dup_segment(&srow.seg));
                        proof {
                            assert(crate::storage::seg_views_of(segs@)
                                =~= crate::storage::seg_views_of(segs@.drop_last()).push(
                                crate::storage::seg_v(segs@.last()),
                            ));
                        }
                    }
                    si = si + 1;
                }
                proof {
                    assert(self.segments_sv().take(sn as int) =~= self.segments_sv());
                }
                toks.push(VerseToken { index: idx, text, segments: segs });
            },
            None => {},
        }
    }
}

/// What a rebuilt verse promises: its coordinates and surah name, its
/// tokens in strictly ascending position order with their stored text and
/// segments, every canonically filed token of the verse represented, and
/// the text rule — the stored text when nonempty, else the longest token
/// text.
pub open spec fn verse_data_ok(st: Storage, su: int, ay: int, d: VerseData) -> bool {
    let stored = st.verse_texts_m()[(su, ay)];
    &&& d.surah_number as int == su
    &&& d.ayah as int == ay
    &&& d.surah_name@ == (if st.surah_names().contains_key(su) {
        st.surah_names()[su]
    } else {
        "Unknown"@
    })
    &&& (forall|i: int, j: int|
        0 <= i < j < d.tokens@.len() ==> d.tokens@[i].index < d.tokens@[j].index)
    &&& (forall|i: int|
        0 <= i < d.tokens@.len() ==> #[trigger] token_facts(st, su, ay, d.tokens@[i]))
    &&& (forall|j: int|
        0 <= j < st.tokens.sq().len() ==> {
            let row = #[trigger] st.tokens.sq()[j];
            (row.surah as int == su && row.ayah as int == ay && row.id@
                == crate::model::token_key(su, ay, row.token_index as int)) ==> exists|i: int|
                0 <= i < d.tokens@.len() && (#[trigger] d.tokens@[i]).index == row.token_index
        })
    &&& d.text@ == (if stored.len() > 0 {
        stored
    } else {
        pick_longest(d.tokens@.map_values(|t: VerseToken| t.text@))
    })
}

impl Storage {
    /// Rebuilds a verse as a nested tree: its canonical text (falling
    /// back to the longest token text when the stored text is empty), its
    /// surah name (falling back to `Unknown`), and its tokens in position
    /// order, each with the segments filed under its canonical id.
    /// Returns nothing when the verse has no stored text row.
    pub fn get_verse(&self, surah: i64, ayah: i64) -> (r: EngineResult<Option<VerseData>>)
        requires
            self.wf(),
        ensures
            r is Ok,
            r matches Ok(o) ==> {
                &&& (o is Some <==> self.verse_texts_m().contains_key(
                    (surah as int, ayah as int),
                ))
                &&& (o matches Some(d) ==> verse_data_ok(*self, surah as int, ayah as int, d))
            },
    {
        let stored = match self.get_verse_text(surah, ayah) {
            Some(t) => t,
            None => {
                return Ok(None);
            },
        };
        let ghost gstored = stored@;

        // The surah name, falling back to `Unknown`.
        let skey = crate::num::i64_string(surah);
        let surah_name: String = match self.surahs.find(&skey) {
            Some(row) => row.name.clone(),
            None => "Unknown".to_owned(),
        };

        // The highest token position of this verse.
        let n = self.tokens.row_count();
        let mut any = false;
        let mut mx: usize = 0;
        let mut j: usize = 0;
        proof {
            assert(self.tokens.sq().take(0) =~= Seq::<crate::storage::TokenRow>::empty());
        }
        while j < n
            invariant
                j <= n,
                n == self.tokens.sq().len(),
                ({
                    let m = max_tok_idx(self.tokens.sq().take(j as int), surah as int, ayah as int);
                    &&& (any ==> m == mx as int)
                    &&& (!any ==> m == -1)
                }),
            decreases n - j,
        {
            proof {
                assert(self.tokens.sq().take(j + 1 as int).drop_last() =~= self.tokens.sq().take(
                    j as int,
                ));
                assert(self.tokens.sq().take(j + 1 as int).last() == self.tokens.sq()[j as int]);
            }
            let row = self.tokens.row_at(j);
            if row.surah == surah && row.ayah == ayah {
                if !any || row.token_index > mx {
                    mx = row.token_index;
                    any = true;
                }
            }
            j = j + 1;
        }
        proof {
            assert(self.tokens.sq().take(n as int) =~= self.tokens.sq());
        }

        // Collect the tokens in position order.
        let mut toks: Vec<VerseToken> = Vec::new();
        if any {
            let mut idx: usize = 0;
            while idx < mx
                invariant
                    idx <= mx,
                    self.wf(),
                    forall|i: int, j0: int|
                        0 <= i < j0 < toks@.len() ==> toks@[i].index < toks@[j0].index,
                    forall|i: int|
                        0 <= i < toks@.len() ==> (#[trigger] toks@[i]).index < idx,
                    forall|i: int|
                        0 <= i < toks@.len() ==> #[trigger] token_facts(
                            *self,
                            surah as int,
                            ayah as int,
                            toks@[i],
                        ),
                    forall|p: int|
                        0 <= p < idx ==> (self.tokens_m().contains_key(
                            crate::model::token_key(surah as int, ayah as int, p),
                        ) ==> exists|i: int|
                            0 <= i < toks@.len() && (#[trigger] toks@[i]).index == p),
                decreases mx - idx,
            {
                let ghost pre = toks@;
                self.collect_token_at(surah, ayah, idx, &mut toks);
                proof {
                    let key = crate::model::token_key(surah as int, ayah as int, idx as int);
                    if self.tokens_m().contains_key(key) {
                        assert forall|i: int| 0 <= i < pre.len() implies toks@[i] == pre[i] by {
                            assert(toks@.take(pre.len() as int)[i] == toks@[i]);
                        }
                    }
                }
                idx = idx + 1;
            }
            let ghost pre2 = toks@;
            let ghost idx2 = mx as int;
            self.collect_token_at(surah, ayah, mx, &mut toks);
            proof {
                let key2 = crate::model::token_key(surah as int, ayah as int, mx as int);
                if self.tokens_m().contains_key(key2) {
                    assert forall|i: int| 0 <= i < pre2.len() implies toks@[i] == pre2[i] by {
                        assert(toks@.take(pre2.len() as int)[i] == toks@[i]);
                    }
                }
                assert(forall|i: int, j0: int|
                    0 <= i < j0 < toks@.len() ==> toks@[i].index < toks@[j0].index);
                assert(forall|i: int|
                    0 <= i < toks@.len() ==> #[trigger] token_facts(
                        *self,
                        surah as int,
                        ayah as int,
                        toks@[i],
                    ));
                assert(forall|p: int|
                    0 <= p <= mx ==> (self.tokens_m().contains_key(
                        crate::model::token_key(surah as int, ayah as int, p),
                    ) ==> exists|i: int|
                        0 <= i < toks@.len() && (#[trigger] toks@[i]).index == p));
            }
            proof {
                assert forall|j0: int|
                    0 <= j0 < self.tokens.sq().len() implies {
                    let row = #[trigger] self.tokens.sq()[j0];
                    (row.surah == surah && row.ayah == ayah && row.id@
                        == crate::model::token_key(
                        surah as int,
                        ayah as int,
                        row.token_index as int,
                    )) ==> exists|i: int|
                        0 <= i < toks@.len() && (#[trigger] toks@[i]).index == row.token_index
                } by {
                    let row = self.tokens.sq()[j0];
                    if row.surah == surah && row.ayah == ayah && row.id@
                        == crate::model::token_key(
                        surah as int,
                        ayah as int,
                        row.token_index as int,
                    ) {
                        lemma_max_tok_bound(self.tokens.sq(), surah as int, ayah as int, j0);
                        crate::table::lemma_rows_map_contains(self.tokens.sq(), row.id@);
                        assert(self.tokens.m().contains_key(row.id@));
                        assert(self.tokens_m().contains_key(
                            crate::model::token_key(
                                surah as int,
                                ayah as int,
                                row.token_index as int,
                            ),
                        ));
                    }
                }
            }
        } else {
            proof {
                assert forall|j0: int|
                    0 <= j0 < self.tokens.sq().len() implies !(
                (#[trigger] self.tokens.sq()[j0]).surah == surah && self.tokens.sq()[j0].ayah
                    == ayah) by {
                    if self.tokens.sq()[j0].surah == surah && self.tokens.sq()[j0].ayah == ayah {
                        lemma_max_tok_bound(self.tokens.sq(), surah as int, ayah as int, j0);
                    }
                }
            }
        }

        // Prefer the stored verse text; fall back to the longest token
        // text.
        let text: String = if !stored.as_str().is_empty() {
            stored
        } else {
            let ghost tviews = toks@.map_values(|t: VerseToken| t.text@);
            let mut best: Vec<char> = Vec::new();
            let mut ti: usize = 0;
            proof {
                assert(tviews.take(0) =~= Seq::<Seq<char>>::empty());
                assert(best@ =~= pick_longest(tviews.take(0)));
            }
            while ti < toks.len()
                invariant
                    ti <= toks@.len(),
                    tviews == toks@.map_values(|t: VerseToken| t.text@),
                    best@ == pick_longest(tviews.take(ti as int)),
                decreases toks@.len() - ti,
            {
                proof {
                    assert(tviews.take(ti + 1 as int).drop_last() =~= tviews.take(ti as int));
                    assert(tviews.take(ti + 1 as int).last() == tviews[ti as int]);
                }
                let cand = crate::text::chars_of(toks[ti].text.as_str());
                if cand.len() >= best.len() {
                    best = cand;
                }
                ti = ti + 1;
            }
            proof {
                assert(tviews.take(toks@.len() as int) =~= tviews);
            }
            crate::text::string_of(&best)
        };

        let ghost gtoks = toks@;
        let d = VerseData { surah_number: surah, surah_name, ayah, text, tokens: toks };
        proof {
            let stored2 = self.verse_texts_m()[(surah as int, ayah as int)];
            assert(d.surah_number == surah);
            assert(d.ayah == ayah);
            assert(d.surah_name@ == (if self.surah_names().contains_key(surah as int) {
                self.surah_names()[surah as int]
            } else {
                "Unknown"@
            }));
            assert(forall|i: int, j0: int|
                0 <= i < j0 < d.tokens@.len() ==> d.tokens@[i].index < d.tokens@[j0].index);
            assert(forall|i: int|
                0 <= i < d.tokens@.len() ==> #[trigger] token_facts(
                    *self,
                    surah as int,
                    ayah as int,
                    d.tokens@[i],
                ));
            assert forall|j0: int|
                0 <= j0 < self.tokens.sq().len() implies {
                let row = #[trigger] self.tokens.sq()[j0];
                (row.surah == surah && row.ayah == ayah && row.id@ == crate::model::token_key(
                    surah as int,
                    ayah as int,
                    row.token_index as int,
                )) ==> exists|i: int|
                    0 <= i < d.tokens@.len() && (#[trigger] d.tokens@[i]).index
                        == row.token_index
            } by {
                let row = self.tokens.sq()[j0];
                if row.surah == surah && row.ayah == ayah && row.id@ == crate::model::token_key(
                    surah as int,
                    ayah as int,
                    row.token_index as int,
                ) {
                    let w = choose|i: int|
                        0 <= i < gtoks.len() && (#[trigger] gtoks[i]).index == row.token_index;
                    assert(d.tokens@[w].index == row.token_index);
                }
            }
            assert(d.text@ == (if stored2.len() > 0 {
                stored2
            } else {
                pick_longest(d.tokens@.map_values(|t: VerseToken| t.text@))
            }));
        }
        Ok(Some(d))
    }
}

/// One segment joined with its owning token.
pub struct VerseSegmentRow {
    pub seg: crate::model::Segment,
    pub token_index: usize,
    pub token_text: String,
}

/// The joined segment rows of a verse, in segment storage order: each
/// segment whose owning token row exists and carries the coordinates.
pub open spec fn verse_seg_rows(st: Storage, su: int, ay: int) -> Seq<
    (crate::storage::SegV, int, Seq<char>),
>
    decreases st.segments.sq().len(),
{
    joined_segs(st.segments_sv(), st.tokens_m(), su, ay)
}

pub open spec fn joined_segs(
    rows: Seq<SegRowV>,
    toks: Map<Seq<char>, crate::storage::TokV>,
    su: int,
    ay: int,
) -> Seq<(crate::storage::SegV, int, Seq<char>)>
    decreases rows.len(),
{
    if rows.len() == 0 {
        Seq::empty()
    } else {
        let rest = joined_segs(rows.drop_last(), toks, su, ay);
        let r = rows.last();
        if toks.contains_key(r.token_id) && toks[r.token_id].surah == su
            && toks[r.token_id].ayah == ay {
            rest.push((r.seg, toks[r.token_id].token_index, toks[r.token_id].text))
        } else {
            rest
        }
    }
}

proof fn lemma_joined_segs_snoc(
    rows: Seq<SegRowV>,
    x: SegRowV,
    toks: Map<Seq<char>, crate::storage::TokV>,
    su: int,
    ay: int,
)
    ensures
        joined_segs(rows.push(x), toks, su, ay) == (if toks.contains_key(x.token_id)
            && toks[x.token_id].surah == su && toks[x.token_id].ayah == ay {
            joined_segs(rows, toks, su, ay).push(
                (x.seg, toks[x.token_id].token_index, toks[x.token_id].text),
            )
        } else {
            joined_segs(rows, toks, su, ay)
        }),
{
    assert(rows.push(x).drop_last() =~= rows);
    assert(rows.push(x).last() == x);
}

impl Storage {
    /// The segments of a verse joined with their tokens, in segment
    /// storage order; what the morphology views serve.
    pub fn get_verse_segments(&self, surah: i64, ayah: i64) -> (r: EngineResult<
        Vec<VerseSegmentRow>,
    >)
        requires
            self.wf(),
        ensures
            r is Ok,
            r matches Ok(v) ==> {
                let js = verse_seg_rows(*self, surah as int, ayah as int);
                &&& v@.len() == js.len()
                &&& forall|j: int|
                    0 <= j < v@.len() ==> crate::storage::seg_v((#[trigger] v@[j]).seg)
                        == js[j].0 && v@[j].token_index as int == js[j].1 && v@[j].token_text@
                        == js[j].2
            },
    {
        let n = self.segments.row_count();
        let mut out: Vec<VerseSegmentRow> = Vec::new();
        let mut i: usize = 0;
        proof {
            assert(self.segments_sv().take(0) =~= Seq::<SegRowV>::empty());
        }
        while i < n
            invariant
                i <= n,
                n == self.segments.sq().len(),
                self.wf(),
                ({
                    let js = joined_segs(
                        self.segments_sv().take(i as int),
                        self.tokens_m(),
                        surah as int,
                        ayah as int,
                    );
                    &&& out@.len() == js.len()
                    &&& forall|j: int|
                        0 <= j < out@.len() ==> crate::storage::seg_v(
                            (#[trigger] out@[j]).seg,
                        ) == js[j].0 && out@[j].token_index as int == js[j].1
                            && out@[j].token_text@ == js[j].2
                }),
            decreases n - i,
        {
            let row = self.segments.row_at(i);
            proof {
                assert(self.segments_sv()[i as int] == crate::storage::seg_row_v(
                    self.segments.sq()[i as int],
                ));
                assert(self.segments_sv().take(i + 1 as int) =~= self.segments_sv().take(
                    i as int,
                ).push(self.segments_sv()[i as int]));
                lemma_joined_segs_snoc(
                    self.segments_sv().take(i as int),
                    self.segments_sv()[i as int],
                    self.tokens_m(),
                    surah as int,
                    ayah as int,
                );
            }
            match self.tokens.find(&row.token_id) {
                Some(tok) => {
                    if tok.surah == surah && tok.ayah == ayah {
                        out.push(
                            VerseSegmentRow {
                                seg: crate::model::dup_segment(&row.seg),
                                token_index: tok.token_index,
                                token_text: tok.text.clone(),
                            },
                        );
                    }
                },
                None => {},
            }
            i = i + 1;
        }
        proof {
            assert(self.segments_sv().take(n as int) =~= self.segments_sv());
        }
        Ok(out)
    }

    /// The verse at one absolute position of the verse table, rebuilt as
    /// a nested tree.
    pub fn get_verse_by_index(&self, index: usize) -> (r: EngineResult<Option<VerseData>>)
        requires
            self.wf(),
        ensures
            r is Ok,
            index >= self.verses.sq().len() ==> (r matches Ok(o) && o is None),
            index < self.verses.sq().len() ==> (r matches Ok(o) && {
                let row = self.verses.sq()[index as int];
                &&& (o is Some <==> self.verse_texts_m().contains_key(
                    (row.surah as int, row.ayah as int),
                ))
                &&& (o matches Some(d) ==> verse_data_ok(
                    *self,
                    row.surah as int,
                    row.ayah as int,
                    d,
                ))
            }),
    {
        if index >= self.verses.row_count() {
            return Ok(None);
        }
        let row = self.verses.row_at(index);
        self.get_verse(row.surah, row.ayah)
    }

    /// The verses of one surah, in verse storage order, each with its
    /// stored text or an empty one.
    pub fn get_surah_verses(&self, surah_number: i64) -> (r: EngineResult<
        Vec<(i64, String)>,
    >)
        requires
            self.wf(),
        ensures
            r is Ok,
            r matches Ok(v) ==> {
                let vs = surah_verse_rows(*self, surah_number as int);
                &&& v@.len() == vs.len()
                &&& forall|j: int|
                    0 <= j < v@.len() ==> (#[trigger] v@[j]).0 as int == vs[j].0 && v@[j].1@
                        == vs[j].1
            },
    {
        let n = self.verses.row_count();
        let mut out: Vec<(i64, String)> = Vec::new();
        let mut i: usize = 0;
        proof {
            assert(self.verses.sq().take(0) =~= Seq::<crate::storage::VerseRow>::empty());
        }
        while i < n
            invariant
                i <= n,
                n == self.verses.sq().len(),
                self.wf(),
                ({
                    let vs = surah_rows_of(
                        self.verses.sq().take(i as int),
                        self.verse_texts_m(),
                        surah_number as int,
                    );
                    &&& out@.len() == vs.len()
                    &&& forall|j: int|
                        0 <= j < out@.len() ==> (#[trigger] out@[j]).0 as int == vs[j].0
                            && out@[j].1@ == vs[j].1
                }),
            decreases n - i,
        {
            proof {
                assert(self.verses.sq().take(i + 1 as int).drop_last() =~= self.verses.sq().take(
                    i as int,
                ));
                assert(self.verses.sq().take(i + 1 as int).last() == self.verses.sq()[i as int]);
            }
            let row = self.verses.row_at(i);
            if row.surah == surah_number {
                let text = match self.get_verse_text(row.surah, row.ayah) {
                    Some(t) => t,
                    None => String::new(),
                };
                out.push((row.ayah, text));
            }
            i = i + 1;
        }
        proof {
            assert(self.verses.sq().take(n as int) =~= self.verses.sq());
        }
        Ok(out)
    }
}

/// The `(ayah, text)` pairs of one surah's verses, in verse storage
/// order; a missing text row reads as empty.
pub open spec fn surah_verse_rows(st: Storage, number: int) -> Seq<(int, Seq<char>)> {
    surah_rows_of(st.verses.sq(), st.verse_texts_m(), number)
}

pub open spec fn surah_rows_of(
    rows: Seq<crate::storage::VerseRow>,
    texts: Map<(int, int), Seq<char>>,
    number: int,
) -> Seq<(int, Seq<char>)>
    decreases rows.len(),
{
    if rows.len() == 0 {
        Seq::empty()
    } else {
        let rest = surah_rows_of(rows.drop_last(), texts, number);
        let r = rows.last();
        if r.surah as int == number {
            rest.push(
                (
                    r.ayah as int,
                    if texts.contains_key((r.surah as int, r.ayah as int)) {
                        texts[(r.surah as int, r.ayah as int)]
                    } else {
                        Seq::empty()
                    },
                ),
            )
        } else {
            rest
        }
    }
}

/// One row of a verse listing.
pub struct VerseListing {
    pub surah_number: i64,
    pub surah_name: String,
    pub ayah: i64,
    pub text: String,
}

impl Storage {
    /// A window of the verse table, in storage order: each verse with its
    /// surah name and stored text, both reading as empty when absent.
    pub fn list_verses(&self, start: usize, limit: usize) -> (r: EngineResult<Vec<VerseListing>>)
        requires
            self.wf(),
        ensures
            r is Ok,
            r matches Ok(v) ==> {
                let n = self.verses.sq().len() as int;
                let from = min_int(start as int, n);
                &&& v@.len() == min_int(limit as int, n - from)
                &&& forall|j: int|
                    0 <= j < v@.len() ==> {
                        let row = self.verses.sq()[from + j];
                        &&& (#[trigger] v@[j]).surah_number == row.surah
                        &&& v@[j].ayah == row.ayah
                        &&& v@[j].surah_name@ == (if self.surah_names().contains_key(
                            row.surah as int,
                        ) {
                            self.surah_names()[row.surah as int]
                        } else {
                            Seq::<char>::empty()
                        })
                        &&& v@[j].text@ == (if self.verse_texts_m().contains_key(
                            (row.surah as int, row.ayah as int),
                        ) {
                            self.verse_texts_m()[(row.surah as int, row.ayah as int)]
                        } else {
                            Seq::<char>::empty()
                        })
                    }
            },
    {
        let n = self.verses.row_count();
        let from = if start < n {
            start
        } else {
            n
        };
        let mut out: Vec<VerseListing> = Vec::new();
        let mut i: usize = from;
        while i < n && out.len() < limit
            invariant
                from <= i <= n,
                n == self.verses.sq().len(),
                self.wf(),
                out@.len() == i - from,
                out@.len() <= limit,
                i < n ==> out@.len() < limit || i == from + limit,
                out@.len() == limit ==> i == from + limit,
                forall|j: int|
                    0 <= j < out@.len() ==> {
                        let row = self.verses.sq()[from + j];
                        &&& (#[trigger] out@[j]).surah_number == row.surah
                        &&& out@[j].ayah == row.ayah
                        &&& out@[j].surah_name@ == (if self.surah_names().contains_key(
                            row.surah as int,
                        ) {
                            self.surah_names()[row.surah as int]
                        } else {
                            Seq::<char>::empty()
                        })
                        &&& out@[j].text@ == (if self.verse_texts_m().contains_key(
                            (row.surah as int, row.ayah as int),
                        ) {
                            self.verse_texts_m()[(row.surah as int, row.ayah as int)]
                        } else {
                            Seq::<char>::empty()
                        })
                    },
            decreases n - i,
        {
            let row = self.verses.row_at(i);
            let skey = crate::num::i64_string(row.surah);
            let name: String = match self.surahs.find(&skey) {
                Some(srow) => srow.name.clone(),
                None => String::new(),
            };
            let text: String = match self.get_verse_text(row.surah, row.ayah) {
                Some(t) => t,
                None => String::new(),
            };
            out.push(
                VerseListing {
                    surah_number: row.surah,
                    surah_name: name,
                    ayah: row.ayah,
                    text,
                },
            );
            i = i + 1;
        }
        Ok(out)
    }
}

/// The number of verse rows carrying one surah number.
pub open spec fn verse_count_of(rows: Seq<crate::storage::VerseRow>, number: int) -> nat
    decreases rows.len(),
{
    if rows.len() == 0 {
        0
    } else {
        verse_count_of(rows.drop_last(), number) + if rows.last().surah as int == number {
            1nat
        } else {
            0nat
        }
    }
}

impl Storage {
    /// Every known surah, in storage order, each with the number of its
    /// known verse coordinates.
    pub fn list_surahs(&self) -> (r: EngineResult<Vec<crate::model::SurahSummary>>)
        requires
            self.wf(),
            self.verses.sq().len() <= i64::MAX,
        ensures
            r is Ok,
            r matches Ok(v) ==> {
                &&& v@.len() == self.surahs.sq().len()
                &&& forall|j: int|
                    0 <= j < v@.len() ==> (#[trigger] v@[j]).number
                        == self.surahs.sq()[j].number && v@[j].name@
                        == self.surahs.sq()[j].name@ && v@[j].ayah_count as int == verse_count_of(
                        self.verses.sq(),
                        self.surahs.sq()[j].number as int,
                    )
            },
    {
        let n = self.surahs.row_count();
        let mut out: Vec<crate::model::SurahSummary> = Vec::new();
        let mut i: usize = 0;
        while i < n
            invariant
                i <= n,
                n == self.surahs.sq().len(),
                self.wf(),
                self.verses.sq().len() <= i64::MAX,
                out@.len() == i,
                forall|j: int|
                    0 <= j < i ==> (#[trigger] out@[j]).number == self.surahs.sq()[j].number
                        && out@[j].name@ == self.surahs.sq()[j].name@ && out@[j].ayah_count
                        as int == verse_count_of(
                        self.verses.sq(),
                        self.surahs.sq()[j].number as int,
                    ),
            decreases n - i,
        {
            let row = self.surahs.row_at(i);
            // Count this surah's verse coordinates.
            let vn = self.verses.row_count();
            let mut count: u64 = 0;
            let mut k: usize = 0;
            proof {
                assert(self.verses.sq().take(0) =~= Seq::<crate::storage::VerseRow>::empty());
            }
            while k < vn
                invariant
                    k <= vn,
                    vn == self.verses.sq().len(),
                    vn <= i64::MAX,
                    count <= k,
                    count as nat == verse_count_of(
                        self.verses.sq().take(k as int),
                        row.number as int,
                    ),
                    row == self.surahs.sq()[i as int],
                    i < self.surahs.sq().len(),
                decreases vn - k,
            {
                proof {
                    assert(self.verses.sq().take(k + 1 as int).drop_last()
                        =~= self.verses.sq().take(k as int));
                    assert(self.verses.sq().take(k + 1 as int).last()
                        == self.verses.sq()[k as int]);
                }
                if self.verses.row_at(k).surah == row.number {
                    count = count + 1;
                }
                k = k + 1;
            }
            proof {
                assert(self.verses.sq().take(vn as int) =~= self.verses.sq());
                lemma_verse_count_bound(self.verses.sq(), row.number as int);
            }
            out.push(
                crate::model::SurahSummary {
                    number: row.number,
                    name: row.name.clone(),
                    ayah_count: count as i64,
                },
            );
            i = i + 1;
        }
        Ok(out)
    }

    /// How many verse coordinates carry tokens: the number of distinct
    /// `(surah, ayah)` pairs among the token rows.
    pub fn count_verses_with_tokens(&self) -> (r: usize)
        ensures
            r as nat == distinct_coords(self.tokens.sq()).len(),
    {
        let n = self.tokens.row_count();
        let mut seen: Vec<(i64, i64)> = Vec::new();
        let mut i: usize = 0;
        proof {
            assert(self.tokens.sq().take(0) =~= Seq::<crate::storage::TokenRow>::empty());
            assert(seen@.map_values(|c: (i64, i64)| (c.0 as int, c.1 as int)) =~= distinct_coords(
                self.tokens.sq().take(0),
            ));
        }
        while i < n
            invariant
                i <= n,
                n == self.tokens.sq().len(),
                seen@.map_values(|c: (i64, i64)| (c.0 as int, c.1 as int)) == distinct_coords(
                    self.tokens.sq().take(i as int),
                ),
            decreases n - i,
        {
            proof {
                assert(self.tokens.sq().take(i + 1 as int).drop_last() =~= self.tokens.sq().take(
                    i as int,
                ));
                assert(self.tokens.sq().take(i + 1 as int).last() == self.tokens.sq()[i as int]);
            }
            let row = self.tokens.row_at(i);
            let mut found = false;
            let mut k: usize = 0;
            while k < seen.len()
                invariant
                    k <= seen@.len(),
                    row == self.tokens.sq()[i as int],
                    i < self.tokens.sq().len(),
                    found ==> exists|m: int|
                        0 <= m < seen@.len() && (#[trigger] seen@[m]).0 == row.surah
                            && seen@[m].1 == row.ayah,
                    !found ==> forall|m: int|
                        0 <= m < k ==> !((#[trigger] seen@[m]).0 == row.surah && seen@[m].1
                            == row.ayah),
                    found ==> k == seen@.len(),
                decreases seen@.len() - k,
            {
                if seen[k].0 == row.surah && seen[k].1 == row.ayah {
                    found = true;
                    k = seen.len();
                } else {
                    k = k + 1;
                }
            }
            proof {
                let cv = seen@.map_values(|c: (i64, i64)| (c.0 as int, c.1 as int));
                if found {
                    let m = choose|m: int|
                        0 <= m < seen@.len() && (#[trigger] seen@[m]).0 == row.surah
                            && seen@[m].1 == row.ayah;
                    assert(cv[m] == (row.surah as int, row.ayah as int));
                    assert(cv.contains((row.surah as int, row.ayah as int)));
                } else {
                    if cv.contains((row.surah as int, row.ayah as int)) {
                        let m = choose|m: int|
                            0 <= m < cv.len() && cv[m] == (row.surah as int, row.ayah as int);
                        assert(seen@[m].0 == row.surah && seen@[m].1 == row.ayah);
                        assert(false);
                    }
                }
            }
            if !found {
                seen.push((row.surah, row.ayah));
                proof {
                    assert(seen@.map_values(|c: (i64, i64)| (c.0 as int, c.1 as int))
                        =~= seen@.drop_last().map_values(
                        |c: (i64, i64)| (c.0 as int, c.1 as int),
                    ).push((row.surah as int, row.ayah as int)));
                }
            }
            i = i + 1;
        }
        proof {
            assert(self.tokens.sq().take(n as int) =~= self.tokens.sq());
            assert(seen@.map_values(|c: (i64, i64)| (c.0 as int, c.1 as int)).len()
                == seen@.len());
        }
        seen.len()
    }
}

/// The distinct verse coordinates among token rows, first occurrence
/// first.
pub open spec fn distinct_coords(rows: Seq<crate::storage::TokenRow>) -> Seq<(int, int)>
    decreases rows.len(),
{
    if rows.len() == 0 {
        Seq::empty()
    } else {
        let rest = distinct_coords(rows.drop_last());
        let c = (rows.last().surah as int, rows.last().ayah as int);
        if rest.contains(c) {
            rest
        } else {
            rest.push(c)
        }
    }
}

proof fn lemma_verse_count_bound(rows: Seq<crate::storage::VerseRow>, number: int)
    ensures
        verse_count_of(rows, number) <= rows.len(),
    decreases rows.len(),
{
    if rows.len() > 0 {
        lemma_verse_count_bound(rows.drop_last(), number);
    }
}

pub open spec fn min_int(a: int, b: int) -> int {
    if a <= b {
        a
    } else {
        b
    }
}

/// The `(surah:ayah, text)` pairs of verse text rows whose text is not
/// empty, in row order.
pub open spec fn nonempty_texts(s: Seq<VerseTextRow>) -> Seq<(Seq<char>, Seq<char>)>
    decreases s.len(),
{
    if s.len() == 0 {
        Seq::empty()
    } else {
        let rest = nonempty_texts(s.drop_last());
        if s.last().text@.len() > 0 {
            rest.push(
                (verse_key(s.last().surah as int, s.last().ayah as int), s.last().text@),
            )
        } else {
            rest
        }
    }
}

proof fn lemma_nonempty_texts_snoc(s: Seq<VerseTextRow>, x: VerseTextRow)
    ensures
        nonempty_texts(s.push(x)) == if x.text@.len() > 0 {
            nonempty_texts(s).push((verse_key(x.surah as int, x.ayah as int), x.text@))
        } else {
            nonempty_texts(s)
        },
{
    assert(s.push(x).drop_last() =~= s);
    assert(s.push(x).last() == x);
}

} // verus!
