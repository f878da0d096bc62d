//! The load-bearing properties of tag reconciliation, stated and proved
//! over the relation [`crate::reconcile::reconciled`] and the store's
//! well-formedness invariant.

use vstd::prelude::*;

use crate::lex::{contains_text, distinct_texts, same_texts, sorted_texts, views_of};
use crate::reconcile::{desired, reconciled};
use crate::store::{
    has_tag_id, has_tag_row, has_tag_text, no_orphan_tags, note_has_text, refs_tag, Store,
};

verus! {

/// No orphan tags: after a reconciliation — whatever the store held before
/// it — every tag row is referenced by at least one association row.
pub proof fn lemma_no_orphans_after_reconcile(
    s0: Store,
    s1: Store,
    note_id: int,
    texts: Seq<String>,
)
    requires
        reconciled(s0, note_id, texts, s1),
    ensures
        no_orphan_tags(s1.tags@, s1.note_tags@),
{
}

/// Dedup pool sharing: two pool rows with the same text are the same row,
/// so notes given overlapping tag text share one row for the shared text.
pub proof fn lemma_dedup_pool_sharing(s: Store, j1: int, j2: int)
    requires
        s.wf(),
        0 <= j1 < s.tags@.len(),
        0 <= j2 < s.tags@.len(),
        s.tags@[j1].tag@ == s.tags@[j2].tag@,
    ensures
        j1 == j2,
        s.tags@[j1].id == s.tags@[j2].id,
{
}

/// Set equality: after a reconciliation with desired list `texts`, any
/// correct read of the note's tags — sorted, duplicate-free, holding
/// exactly the note's texts — equals any sorted, duplicate-free arrangement
/// of the deduplicated `texts`. Reading the note back yields
/// `sorted(dedup(texts))`, whatever order and repetition `texts` had.
pub proof fn lemma_set_equality(
    s0: Store,
    s1: Store,
    note_id: int,
    texts: Seq<String>,
    read: Seq<String>,
    sorted_dedup: Seq<String>,
)
    requires
        reconciled(s0, note_id, texts, s1),
        sorted_texts(views_of(read)),
        distinct_texts(views_of(read)),
        forall|t: Seq<char>|
            #[trigger] contains_text(views_of(read), t) == note_has_text(
                s1.tags@,
                s1.note_tags@,
                note_id,
                t,
            ),
        sorted_texts(views_of(sorted_dedup)),
        distinct_texts(views_of(sorted_dedup)),
        forall|t: Seq<char>| #[trigger] contains_text(views_of(sorted_dedup), t) == desired(
            texts,
            t,
        ),
    ensures
        views_of(read) == views_of(sorted_dedup),
{
    assert forall|t: Seq<char>|
        contains_text(views_of(read), t) == contains_text(views_of(sorted_dedup), t) by {
        assert(contains_text(views_of(read), t) == note_has_text(
            s1.tags@,
            s1.note_tags@,
            note_id,
            t,
        ));
    }
    crate::lex::lemma_sorted_distinct_canonical(views_of(read), views_of(sorted_dedup));
}

/// Repeated entries carry no weight: two desired lists with the same set of
/// texts reconcile a note in exactly the same way, so `["a", "a", "b"]`
/// behaves as `["a", "b"]` does.
pub proof fn lemma_repeats_irrelevant(
    s0: Store,
    s1: Store,
    note_id: int,
    t1: Seq<String>,
    t2: Seq<String>,
)
    requires
        same_texts(views_of(t1), views_of(t2)),
    ensures
        reconciled(s0, note_id, t1, s1) == reconciled(s0, note_id, t2, s1),
{
    assert forall|t: Seq<char>| desired(t1, t) == desired(t2, t) by {
        assert(contains_text(views_of(t1), t) == contains_text(views_of(t2), t));
    }
    if reconciled(s0, note_id, t1, s1) {
        assert(reconciled(s0, note_id, t2, s1));
    }
    if reconciled(s0, note_id, t2, s1) {
        assert(reconciled(s0, note_id, t1, s1));
    }
}

/// Idempotence of reconciliation: running the same desired list twice
/// changes nothing the second time — the note reads back the same texts,
/// and the pool holds exactly the same rows, identifier for identifier.
pub proof fn lemma_reconcile_idempotent(
    s0: Store,
    s1: Store,
    s2: Store,
    note_id: int,
    texts: Seq<String>,
)
    requires
        s0.wf(),
        s1.wf(),
        s2.wf(),
        reconciled(s0, note_id, texts, s1),
        reconciled(s1, note_id, texts, s2),
    ensures
        // the note's texts are unchanged by the second run
        forall|t: Seq<char>|
            #[trigger] note_has_text(s2.tags@, s2.note_tags@, note_id, t) == note_has_text(
                s1.tags@,
                s1.note_tags@,
                note_id,
                t,
            ),
        // every pool row survives the second run, with its identifier
        forall|j: int|
            0 <= j < s1.tags@.len() ==> has_tag_row(
                s2.tags@,
                s1.tags@[j].id as int,
                #[trigger] s1.tags@[j].tag@,
            ),
        // and the second run makes no row the first did not leave
        forall|j: int|
            0 <= j < s2.tags@.len() ==> has_tag_row(
                s1.tags@,
                s2.tags@[j].id as int,
                #[trigger] s2.tags@[j].tag@,
            ),
        // so the pool holds exactly as many rows as before
        s2.tags@.len() == s1.tags@.len(),
{
    lemma_no_orphans_after_reconcile(s0, s1, note_id, texts);
    // every s1 row survives: desired rows are kept by the relation, and a
    // row not desired is referenced only through other notes, whose rows
    // the second run leaves alone
    assert forall|j: int| 0 <= j < s1.tags@.len() implies has_tag_row(
        s2.tags@,
        s1.tags@[j].id as int,
        #[trigger] s1.tags@[j].tag@,
    ) by {
        let row = s1.tags@[j];
        if desired(texts, row.tag@) {
            assert(has_tag_row(s2.tags@, row.id as int, row.tag@));
        } else {
            assert(refs_tag(s1.note_tags@, row.id as int));
            let m = choose|m: int|
                0 <= m < s1.note_tags@.len() && s1.note_tags@[m].tag_id == row.id;
            let a = s1.note_tags@[m];
            assert(a.note_id != note_id) by {
                if a.note_id == note_id {
                    assert(note_has_text(s1.tags@, s1.note_tags@, note_id, row.tag@));
                    assert(desired(texts, row.tag@));
                }
            }
            assert(s2.note_tags@.contains(a));
            let m2 = choose|m2: int| 0 <= m2 < s2.note_tags@.len() && s2.note_tags@[m2] == a;
            assert(refs_tag(s2.note_tags@, row.id as int));
            assert(has_tag_id(s2.tags@, row.id as int));
            let u = choose|u: int| 0 <= u < s2.tags@.len() && s2.tags@[u].id == row.id;
            // the surviving row cannot be fresh: fresh identifiers lie at or
            // above the first run's counter, this one below it
            assert(0 <= row.id < s1.next_tag_id);
            assert(has_tag_row(s1.tags@, s2.tags@[u].id as int, s2.tags@[u].tag@));
            let w = choose|w: int|
                0 <= w < s1.tags@.len() && s1.tags@[w].id == s2.tags@[u].id && s1.tags@[w].tag@
                    == s2.tags@[u].tag@;
            assert(w == j);
            assert(has_tag_row(s2.tags@, row.id as int, row.tag@));
        }
    }
    // no new rows: a fresh row of the second run would need its text absent
    // from s1, but every desired text is already pooled there
    assert forall|j: int| 0 <= j < s2.tags@.len() implies has_tag_row(
        s1.tags@,
        s2.tags@[j].id as int,
        #[trigger] s2.tags@[j].tag@,
    ) by {
        let row = s2.tags@[j];
        if !has_tag_row(s1.tags@, row.id as int, row.tag@) {
            assert(desired(texts, row.tag@) && !has_tag_text(s1.tags@, row.tag@));
            assert(has_tag_text(s1.tags@, row.tag@));
        }
    }
    // the identifier sets agree, and each pool lists its identifiers
    // without repetition, so the lengths agree
    let ids1 = Seq::new(s1.tags@.len(), |j: int| s1.tags@[j].id);
    let ids2 = Seq::new(s2.tags@.len(), |j: int| s2.tags@[j].id);
    assert(ids1.no_duplicates());
    assert(ids2.no_duplicates());
    assert(ids1.to_set() =~= ids2.to_set()) by {
        assert forall|x: i32| ids1.contains(x) implies ids2.contains(x) by {
            let j = choose|j: int| 0 <= j < ids1.len() && ids1[j] == x;
            assert(has_tag_row(s2.tags@, s1.tags@[j].id as int, s1.tags@[j].tag@));
            let u = choose|u: int|
                0 <= u < s2.tags@.len() && s2.tags@[u].id == s1.tags@[j].id && s2.tags@[u].tag@
                    == s1.tags@[j].tag@;
            assert(ids2[u] == x);
        }
        assert forall|x: i32| ids2.contains(x) implies ids1.contains(x) by {
            let j = choose|j: int| 0 <= j < ids2.len() && ids2[j] == x;
            assert(has_tag_row(s1.tags@, s2.tags@[j].id as int, s2.tags@[j].tag@));
            let u = choose|u: int|
                0 <= u < s1.tags@.len() && s1.tags@[u].id == s2.tags@[j].id && s1.tags@[u].tag@
                    == s2.tags@[j].tag@;
            assert(ids1[u] == x);
        }
    }
    ids1.unique_seq_to_set();
    ids2.unique_seq_to_set();
}

} // verus!
