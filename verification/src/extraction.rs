//! The decisions of extracting the knowledge graph of one note: whether to
//! extract at all, how each batch's result counts, and which rows the store
//! gets (entities, their links to passages, relations, and whether the note's
//! content hash is kept).
use vstd::prelude::*;
use crate::audio_clip::{text_lt, text_lt_exec};
use crate::graph::{
    batch_error_line, normalize_name, normalize_name_s, BatchExtraction, ExtractOutcome,
    GraphEntity, GraphRelation,
};
use crate::text::{chars_of, contains, contains_s, copy_chars, dec_s, eq_chars, str_views, take_chars};

verus! {

// ---------------------------------------------------------------- whether to extract

/// Meaning of `needs_extraction`.
pub open spec fn needs_extraction_s(stored: Option<Seq<char>>, current: Seq<char>, force: bool) -> bool {
    force || stored != Some(current)
}

/// A note is extracted again when forced, or when the stored content hash is
/// missing or differs from the current one.
pub fn needs_extraction(stored: Option<&str>, current: &str, force: bool) -> (r: bool)
    ensures
        r == needs_extraction_s(
            match stored {
                Some(s) => Some(s@),
                None => None,
            },
            current@,
            force,
        ),
{
    if force {
        return true;
    }
    match stored {
        None => true,
        Some(s) => !eq_chars(chars_of(s).as_slice(), chars_of(current).as_slice()),
    }
}

// ---------------------------------------------------------------- counting batches

/// The counters and errors of an outcome.
pub open spec fn outcome_counts(o: ExtractOutcome) -> (nat, nat, nat, Seq<Seq<char>>) {
    (o.batches as nat, o.entities as nat, o.relations as nat, str_views(o.errors@))
}

/// Meaning of `fold_batch`: one more batch; a good batch adds its entities and
/// relations, a failed one adds its error line.
pub open spec fn fold_batch_s(
    o: (nat, nat, nat, Seq<Seq<char>>),
    bi: nat,
    b: BatchExtraction,
) -> (nat, nat, nat, Seq<Seq<char>>) {
    match b.error {
        None => (o.0 + 1, o.1 + b.entities@.len(), o.2 + b.relations@.len(), o.3),
        Some(e) => (
            o.0 + 1,
            o.1,
            o.2,
            o.3.push("第 "@ + dec_s(bi + 1) + " 批："@ + take_chars(e@, 160)),
        ),
    }
}

/// Counts the result of batch `bi` into the outcome of a note.
pub fn fold_batch(o: &ExtractOutcome, bi: usize, b: &BatchExtraction) -> (r: ExtractOutcome)
    requires
        bi < usize::MAX,
        o.batches < usize::MAX,
        o.entities + b.entities@.len() <= usize::MAX,
        o.relations + b.relations@.len() <= usize::MAX,
    ensures
        outcome_counts(r) == fold_batch_s(outcome_counts(*o), bi as nat, *b),
        r.notes_total == o.notes_total,
        r.cancelled == o.cancelled,
{
    let mut errors: Vec<String> = Vec::new();
    let mut i: usize = 0;
    while i < o.errors.len()
        invariant
            i <= o.errors@.len(),
            str_views(errors@) == str_views(o.errors@).take(i as int),
        decreases o.errors@.len() - i,
    {
        let ghost prev = str_views(errors@);
        let c = crate::text::string_of(chars_of(o.errors[i].as_str()).as_slice());
        errors.push(c);
        assert(str_views(errors@) =~= prev.push(o.errors@[i as int]@));
        assert(str_views(o.errors@).take(i + 1) =~= str_views(o.errors@).take(i as int).push(
            o.errors@[i as int]@,
        ));
        i = i + 1;
    }
    assert(str_views(o.errors@).take(i as int) =~= str_views(o.errors@));
    let (entities, relations) = match &b.error {
        None => (o.entities + b.entities.len(), o.relations + b.relations.len()),
        Some(e) => {
            let ghost before = str_views(errors@);
            errors.push(batch_error_line(bi, e.as_str()));
            assert(str_views(errors@) =~= before.push(
                "第 "@ + dec_s((bi + 1) as nat) + " 批："@ + take_chars(e@, 160),
            ));
            (o.entities, o.relations)
        },
    };
    ExtractOutcome {
        notes_total: o.notes_total,
        notes_done: o.notes_done,
        notes_skipped: o.notes_skipped,
        notes_failed: o.notes_failed,
        batches: o.batches + 1,
        entities,
        relations,
        elapsed_ms: o.elapsed_ms,
        cancelled: o.cancelled,
        errors,
    }
}

// ---------------------------------------------------------------- rows of the store

/// Text of the chunk with this id among the note's chunks (empty when absent).
pub open spec fn text_of(chunks: Seq<(i64, Seq<char>)>, id: i64) -> Seq<char>
    decreases chunks.len(),
{
    if chunks.len() == 0 {
        seq![]
    } else if chunks[0].0 == id {
        chunks[0].1
    } else {
        text_of(chunks.drop_first(), id)
    }
}

/// Whether the chunk names `name` (in its normalized text).
pub open spec fn chunk_names(chunks: Seq<(i64, Seq<char>)>, id: i64, name: Seq<char>) -> bool {
    contains_s(normalize_name_s(text_of(chunks, id)), name)
}

/// First of `ids[i..]` whose chunk names `a` (and `b`, when `both`).
pub open spec fn first_naming(
    chunks: Seq<(i64, Seq<char>)>,
    ids: Seq<i64>,
    a: Seq<char>,
    b: Seq<char>,
    both: bool,
    i: int,
) -> Option<i64>
    decreases ids.len() - i,
{
    if i < 0 || i >= ids.len() {
        None
    } else if chunk_names(chunks, ids[i], a) && (!both || chunk_names(chunks, ids[i], b)) {
        Some(ids[i])
    } else {
        first_naming(chunks, ids, a, b, both, i + 1)
    }
}

/// The passage a row points to: the first of the batch naming the ends, else
/// the batch's first passage.
pub open spec fn row_chunk(
    chunks: Seq<(i64, Seq<char>)>,
    ids: Seq<i64>,
    a: Seq<char>,
    b: Seq<char>,
    both: bool,
) -> Option<i64> {
    match first_naming(chunks, ids, a, b, both, 0) {
        Some(c) => Some(c),
        None => if ids.len() > 0 {
            Some(ids[0])
        } else {
            None
        },
    }
}

/// The kind under which an entity name is found among the first `n` entities:
/// the smallest kind (in character order) that the name has.
pub open spec fn kind_for(ents: Seq<(Seq<char>, Seq<char>)>, name: Seq<char>, n: int) -> Option<Seq<char>>
    decreases n,
{
    if n <= 0 || n > ents.len() {
        None
    } else {
        let prev = kind_for(ents, name, n - 1);
        if ents[n - 1].0 == name && (prev is None || text_lt(ents[n - 1].1, prev->0)) {
            Some(ents[n - 1].1)
        } else {
            prev
        }
    }
}

/// A relation row: the ends as (name, kind), the passage, kind and evidence.
pub struct RelationRow {
    pub from: (String, String),
    pub to: (String, String),
    pub chunk_id: Option<i64>,
    pub kind: String,
    pub evidence: String,
}

/// A link of an entity to the passage that names it.
pub struct LinkRow {
    pub chunk_id: i64,
    pub name: String,
    pub kind: String,
}

/// What the store gets for a note.
pub struct ExtractionRows {
    /// entities to insert or refresh, in order (name, kind)
    pub entities: Vec<(String, String)>,
    pub links: Vec<LinkRow>,
    pub relations: Vec<RelationRow>,
    pub entity_count: usize,
    pub relation_count: usize,
    /// whether the note's content hash is kept (the run reported no error)
    pub keep_hash: bool,
}

pub open spec fn ents_view(e: Seq<GraphEntity>) -> Seq<(Seq<char>, Seq<char>)> {
    Seq::new(e.len(), |i: int| (e[i].name@, e[i].kind@))
}

pub open spec fn link_view(l: LinkRow) -> (i64, Seq<char>, Seq<char>) {
    (l.chunk_id, l.name@, l.kind@)
}

pub open spec fn rel_row_view(r: RelationRow) -> (
    (Seq<char>, Seq<char>),
    (Seq<char>, Seq<char>),
    Option<i64>,
    Seq<char>,
    Seq<char>,
) {
    ((r.from.0@, r.from.1@), (r.to.0@, r.to.1@), r.chunk_id, r.kind@, r.evidence@)
}

/// Links of the first `n` entities of a batch.
pub open spec fn links_upto(
    chunks: Seq<(i64, Seq<char>)>,
    ids: Seq<i64>,
    ents: Seq<(Seq<char>, Seq<char>)>,
    n: int,
) -> Seq<(i64, Seq<char>, Seq<char>)>
    decreases n,
{
    if n <= 0 || n > ents.len() {
        seq![]
    } else {
        let prev = links_upto(chunks, ids, ents, n - 1);
        match row_chunk(chunks, ids, ents[n - 1].0, seq![], false) {
            Some(c) => prev.push((c, ents[n - 1].0, ents[n - 1].1)),
            None => prev,
        }
    }
}

/// Relation rows of the first `n` relations of a batch: those whose two ends
/// are among the batch's entities.
pub open spec fn rels_upto(
    chunks: Seq<(i64, Seq<char>)>,
    ids: Seq<i64>,
    ents: Seq<(Seq<char>, Seq<char>)>,
    rels: Seq<GraphRelation>,
    n: int,
) -> Seq<((Seq<char>, Seq<char>), (Seq<char>, Seq<char>), Option<i64>, Seq<char>, Seq<char>)>
    decreases n,
{
    if n <= 0 || n > rels.len() {
        seq![]
    } else {
        let prev = rels_upto(chunks, ids, ents, rels, n - 1);
        let r = rels[n - 1];
        let fk = kind_for(ents, r.from@, ents.len() as int);
        let tk = kind_for(ents, r.to@, ents.len() as int);
        if fk is Some && tk is Some {
            prev.push(
                (
                    (r.from@, fk->0),
                    (r.to@, tk->0),
                    row_chunk(chunks, ids, r.from@, r.to@, true),
                    r.kind@,
                    r.evidence@,
                ),
            )
        } else {
            prev
        }
    }
}

/// The rows of the first `n` batches: entity rows, links and relation rows;
/// a failed batch gives none.
pub open spec fn rows_upto(chunks: Seq<(i64, Seq<char>)>, bs: Seq<BatchExtraction>, n: int) -> (
    Seq<(Seq<char>, Seq<char>)>,
    Seq<(i64, Seq<char>, Seq<char>)>,
    Seq<((Seq<char>, Seq<char>), (Seq<char>, Seq<char>), Option<i64>, Seq<char>, Seq<char>)>,
)
    decreases n,
{
    if n <= 0 || n > bs.len() {
        (seq![], seq![], seq![])
    } else {
        let p = rows_upto(chunks, bs, n - 1);
        let b = bs[n - 1];
        if b.error is Some {
            p
        } else {
            let ents = ents_view(b.entities@);
            (
                p.0 + ents,
                p.1 + links_upto(chunks, b.chunk_ids@, ents, ents.len() as int),
                p.2 + rels_upto(chunks, b.chunk_ids@, ents, b.relations@, b.relations@.len() as int),
            )
        }
    }
}

pub open spec fn chunks_of(c: Seq<(i64, String)>) -> Seq<(i64, Seq<char>)> {
    Seq::new(c.len(), |i: int| (c[i].0, c[i].1@))
}

fn text_of_exec(chunks: &[(i64, String)], id: i64) -> (r: Vec<char>)
    ensures
        r@ == text_of(chunks_of(chunks@), id),
{
    let ghost cv = chunks_of(chunks@);
    assert(cv.skip(0) =~= cv);
    let mut i: usize = 0;
    while i < chunks.len()
        invariant
            i <= chunks@.len(),
            cv == chunks_of(chunks@),
            text_of(cv.skip(i as int), id) == text_of(cv, id),
        decreases chunks@.len() - i,
    {
        assert(cv.skip(i as int)[0] == cv[i as int]);
        if chunks[i].0 == id {
            return chars_of(chunks[i].1.as_str());
        }
        assert(cv.skip(i as int).drop_first() =~= cv.skip(i + 1));
        i = i + 1;
    }
    assert(cv.skip(i as int).len() == 0);
    Vec::new()
}

fn chunk_names_exec(chunks: &[(i64, String)], id: i64, name: &[char]) -> (r: bool)
    ensures
        r == chunk_names(chunks_of(chunks@), id, name@),
{
    let t = text_of_exec(chunks, id);
    let n = normalize_name(crate::text::string_of(t.as_slice()).as_str());
    contains(chars_of(n.as_str()).as_slice(), name)
}

fn row_chunk_exec(chunks: &[(i64, String)], ids: &[i64], a: &[char], b: &[char], both: bool) -> (r:
    Option<i64>)
    ensures
        r == row_chunk(chunks_of(chunks@), ids@, a@, b@, both),
{
    let ghost cv = chunks_of(chunks@);
    let mut i: usize = 0;
    while i < ids.len()
        invariant
            i <= ids@.len(),
            cv == chunks_of(chunks@),
            first_naming(cv, ids@, a@, b@, both, i as int) == first_naming(cv, ids@, a@, b@, both, 0),
        decreases ids@.len() - i,
    {
        if chunk_names_exec(chunks, ids[i], a) && (!both || chunk_names_exec(chunks, ids[i], b)) {
            return Some(ids[i]);
        }
        i = i + 1;
    }
    if ids.len() > 0 {
        Some(ids[0])
    } else {
        None
    }
}

fn kind_for_exec(ents: &[GraphEntity], name: &[char]) -> (r: Option<Vec<char>>)
    ensures
        match r {
            Some(k) => kind_for(ents_view(ents@), name@, ents@.len() as int) == Some(k@),
            None => kind_for(ents_view(ents@), name@, ents@.len() as int) is None,
        },
{
    let ghost ev = ents_view(ents@);
    let mut best: Option<Vec<char>> = None;
    let mut i: usize = 0;
    while i < ents.len()
        invariant
            i <= ents@.len(),
            ev == ents_view(ents@),
            match best {
                Some(k) => kind_for(ev, name@, i as int) == Some(k@),
                None => kind_for(ev, name@, i as int) is None,
            },
        decreases ents@.len() - i,
    {
        let n = chars_of(ents[i].name.as_str());
        let k = chars_of(ents[i].kind.as_str());
        assert(ev[i as int] == (ents@[i as int].name@, ents@[i as int].kind@));
        if eq_chars(n.as_slice(), name) {
            let better = match &best {
                None => true,
                Some(b) => text_lt_exec(k.as_slice(), b.as_slice()),
            };
            if better {
                best = Some(k);
            }
        }
        i = i + 1;
    }
    best
}

fn string_pair(a: &[char], b: &[char]) -> (r: (String, String))
    ensures
        r.0@ == a@,
        r.1@ == b@,
{
    (crate::text::string_of(a), crate::text::string_of(b))
}

/// The rows the store gets for a note's batches (failed batches give none),
/// with the entity and relation counts summed over the good batches, and the
/// content hash kept exactly when the run reported no error.
pub fn extraction_rows(batches: &[BatchExtraction], chunks: &[(i64, String)], errors: &[String]) -> (r: ExtractionRows)
    requires
        batches@.len() < usize::MAX,
    ensures
        ({
            let want = rows_upto(chunks_of(chunks@), batches@, batches@.len() as int);
            &&& Seq::new(r.entities@.len(), |i: int| (r.entities@[i].0@, r.entities@[i].1@))
                == want.0
            &&& Seq::new(r.links@.len(), |i: int| link_view(r.links@[i])) == want.1
            &&& Seq::new(r.relations@.len(), |i: int| rel_row_view(r.relations@[i])) == want.2
        }),
        r.keep_hash == (errors@.len() == 0),
        r.entity_count == r.entities@.len(),
        r.relation_count == r.relations@.len(),
{
    let ghost cv = chunks_of(chunks@);
    let mut entities: Vec<(String, String)> = Vec::new();
    let mut links: Vec<LinkRow> = Vec::new();
    let mut relations: Vec<RelationRow> = Vec::new();
    let mut bi: usize = 0;
    while bi < batches.len()
        invariant
            bi <= batches@.len(),
            cv == chunks_of(chunks@),
            ({
                let want = rows_upto(cv, batches@, bi as int);
                &&& Seq::new(entities@.len(), |i: int| (entities@[i].0@, entities@[i].1@)) == want.0
                &&& Seq::new(links@.len(), |i: int| link_view(links@[i])) == want.1
                &&& Seq::new(relations@.len(), |i: int| rel_row_view(relations@[i])) == want.2
            }),
        decreases batches@.len() - bi,
    {
        let b = &batches[bi];
        if b.error.is_none() {
            let ghost ents = ents_view(b.entities@);
            let ghost e0 = Seq::new(entities@.len(), |i: int| (entities@[i].0@, entities@[i].1@));
            let ghost l0 = Seq::new(links@.len(), |i: int| link_view(links@[i]));
            let ghost r0 = Seq::new(relations@.len(), |i: int| rel_row_view(relations@[i]));
            // entities and their links
            let mut k: usize = 0;
            while k < b.entities.len()
                invariant
                    k <= b.entities@.len(),
                    ents == ents_view(b.entities@),
                    cv == chunks_of(chunks@),
                    Seq::new(entities@.len(), |i: int| (entities@[i].0@, entities@[i].1@)) == e0
                        + ents.take(k as int),
                    Seq::new(links@.len(), |i: int| link_view(links@[i])) == l0 + links_upto(
                        cv,
                        b.chunk_ids@,
                        ents,
                        k as int,
                    ),
                decreases b.entities@.len() - k,
            {
                let name = chars_of(b.entities[k].name.as_str());
                let kind = chars_of(b.entities[k].kind.as_str());
                assert(ents[k as int] == (name@, kind@));
                let ghost ep = Seq::new(entities@.len(), |i: int| (entities@[i].0@, entities@[i].1@));
                entities.push(string_pair(name.as_slice(), kind.as_slice()));
                assert(Seq::new(entities@.len(), |i: int| (entities@[i].0@, entities@[i].1@)) =~= ep.push(
                    (name@, kind@),
                ));
                assert(e0 + ents.take(k + 1) =~= (e0 + ents.take(k as int)).push(ents[k as int]));
                let empty: Vec<char> = Vec::new();
                let ghost lp = Seq::new(links@.len(), |i: int| link_view(links@[i]));
                match row_chunk_exec(chunks, b.chunk_ids.as_slice(), name.as_slice(), empty.as_slice(), false) {
                    Some(c) => {
                        let (n2, k2) = string_pair(name.as_slice(), kind.as_slice());
                        links.push(LinkRow { chunk_id: c, name: n2, kind: k2 });
                        assert(Seq::new(links@.len(), |i: int| link_view(links@[i])) =~= lp.push(
                            (c, name@, kind@),
                        ));
                    },
                    None => {},
                }
                assert(empty@ =~= seq![]);
                k = k + 1;
            }
            assert(ents.take(ents.len() as int) =~= ents);
            // relations
            let mut j: usize = 0;
            while j < b.relations.len()
                invariant
                    j <= b.relations@.len(),
                    ents == ents_view(b.entities@),
                    cv == chunks_of(chunks@),
                    Seq::new(relations@.len(), |i: int| rel_row_view(relations@[i])) == r0 + rels_upto(
                        cv,
                        b.chunk_ids@,
                        ents,
                        b.relations@,
                        j as int,
                    ),
                decreases b.relations@.len() - j,
            {
                let r = &b.relations[j];
                let from = chars_of(r.from.as_str());
                let to = chars_of(r.to.as_str());
                let fk = kind_for_exec(b.entities.as_slice(), from.as_slice());
                let tk = kind_for_exec(b.entities.as_slice(), to.as_slice());
                match (fk, tk) {
                    (Some(fk), Some(tk)) => {
                        let cid = row_chunk_exec(
                            chunks,
                            b.chunk_ids.as_slice(),
                            from.as_slice(),
                            to.as_slice(),
                            true,
                        );
                        let ghost rp = Seq::new(relations@.len(), |i: int| rel_row_view(relations@[i]));
                        let row = RelationRow {
                            from: string_pair(from.as_slice(), fk.as_slice()),
                            to: string_pair(to.as_slice(), tk.as_slice()),
                            chunk_id: cid,
                            kind: crate::text::string_of(chars_of(r.kind.as_str()).as_slice()),
                            evidence: crate::text::string_of(chars_of(r.evidence.as_str()).as_slice()),
                        };
                        relations.push(row);
                        assert(Seq::new(relations@.len(), |i: int| rel_row_view(relations@[i]))
                            =~= rp.push(
                            (
                                (from@, fk@),
                                (to@, tk@),
                                cid,
                                r.kind@,
                                r.evidence@,
                            ),
                        ));
                    },
                    _ => {},
                }
                j = j + 1;
            }
        }
        bi = bi + 1;
    }
    let entity_count = entities.len();
    let relation_count = relations.len();
    ExtractionRows { entities, links, relations, entity_count, relation_count, keep_hash: errors.len() == 0 }
}

} // verus!
