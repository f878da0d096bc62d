//! The tag-reconciliation transaction and the read path that assembles a
//! note with its sorted tag list.
//!
//! `User::set_note_tags` is the one operation here with real ordering and
//! cleanup concerns: it deduplicates the desired texts, pools the new ones
//! with an insert-if-absent write, replaces the note's association rows
//! wholesale, and then deletes every tag row that nothing references any
//! more. The relation [`reconciled`] states exactly how the store after the
//! transaction relates to the store before it.

use vstd::prelude::*;

use crate::error::DbError;
use crate::lex::{contains_text, distinct_texts, sorted_texts, views_of};
use crate::models::{NewNote, Note, NoteTag, NoteToTag, NoteWithTags, Tag, UpdateNote, User};
use crate::store::{
    has_note_id, has_tag_id, has_tag_row, has_tag_text, has_user_note, no_orphan_tags,
    note_has_tag, note_has_text, refs_note, refs_tag, Store,
};

verus! {

/// Filtering a prefix one element longer keeps the shorter prefix's rows
/// and appends the new element exactly when it passes.
proof fn lemma_filter_take_step(s: Seq<Note>, i: int, pred: spec_fn(Note) -> bool)
    requires
        0 <= i < s.len(),
    ensures
        s.take(i + 1).filter(pred) == if pred(s[i]) {
            s.take(i).filter(pred).push(s[i])
        } else {
            s.take(i).filter(pred)
        },
{
    reveal(Seq::filter);
    let longer = s.take(i + 1);
    assert(longer.drop_last() =~= s.take(i));
    assert(longer.last() == s[i]);
    assert(longer.filter(pred) == if pred(longer.last()) {
        longer.drop_last().filter(pred).push(longer.last())
    } else {
        longer.drop_last().filter(pred)
    });
}

/// The note row that an update payload turns an existing row into: absent
/// fields keep their value, and the row is stamped with the store's clock.
pub open spec fn apply_update(n: Note, u: UpdateNote, now: i64) -> Note {
    Note {
        title: match u.title {
            Option::Some(t) => t,
            Option::None => n.title,
        },
        body: match u.body {
            Option::Some(b) => b,
            Option::None => n.body,
        },
        parent_note_id: match u.parent_note_id {
            Option::Some(p) => p,
            Option::None => n.parent_note_id,
        },
        archived: match u.archived {
            Option::Some(a) => a,
            Option::None => n.archived,
        },
        pinned: match u.pinned {
            Option::Some(p) => p,
            Option::None => n.pinned,
        },
        updated_at: now,
        ..n
    }
}

/// The note fields of the read model agree with the note row.
pub open spec fn nwt_fields_match(r: NoteWithTags, n: Note) -> bool {
    &&& r.id == n.id
    &&& r.title@ == n.title@
    &&& r.body@ == n.body@
    &&& r.created_at == n.created_at
    &&& r.updated_at == n.updated_at
    &&& r.user_id == n.user_id
    &&& r.parent_note_id == n.parent_note_id
    &&& r.archived == n.archived
    &&& r.pinned == n.pinned
}

/// The tag list of the read model is the note's tag texts, sorted, each
/// exactly once.
pub open spec fn nwt_tags_exact(
    r: NoteWithTags,
    tags: Seq<Tag>,
    note_tags: Seq<NoteTag>,
    note_id: int,
) -> bool {
    &&& sorted_texts(views_of(r.tags@))
    &&& distinct_texts(views_of(r.tags@))
    &&& forall|t: Seq<char>|
        #[trigger] contains_text(views_of(r.tags@), t) == note_has_text(
            tags,
            note_tags,
            note_id,
            t,
        )
}

/// Is `t` one of the desired texts? Repetitions in the list carry no
/// weight: only membership matters.
pub open spec fn desired(texts: Seq<String>, t: Seq<char>) -> bool {
    contains_text(views_of(texts), t)
}

/// How the store after `set_note_tags(note_id, texts)` relates to the store
/// before it.
pub open spec fn reconciled(pre: Store, note_id: int, texts: Seq<String>, post: Store) -> bool {
    &&& post.users@ == pre.users@
    &&& post.notes@ == pre.notes@
    &&& post.next_user_id == pre.next_user_id
    &&& post.next_note_id == pre.next_note_id
    &&& post.next_tag_id >= pre.next_tag_id
    &&& post.next_note_tag_id >= pre.next_note_tag_id
    &&& post.clock == pre.clock
    // a pooled row whose text is desired survives unchanged
    &&& forall|j: int|
        0 <= j < pre.tags@.len() && desired(texts, #[trigger] pre.tags@[j].tag@) ==> has_tag_row(
            post.tags@,
            pre.tags@[j].id as int,
            pre.tags@[j].tag@,
        )
    // every desired text is pooled now
    &&& forall|t: Seq<char>| desired(texts, t) ==> has_tag_text(post.tags@, t)
    // every pooled row is an old row, or a fresh row for a desired text
    // that was absent before
    &&& forall|j: int|
        0 <= j < post.tags@.len() ==> {
            let t = #[trigger] post.tags@[j];
            ||| has_tag_row(pre.tags@, t.id as int, t.tag@)
            ||| (desired(texts, t.tag@) && !has_tag_text(pre.tags@, t.tag@) && t.id
                >= pre.next_tag_id)
        }
    // an old row survives exactly when something still references it
    &&& forall|j: int|
        0 <= j < pre.tags@.len() ==> (has_tag_id(post.tags@, #[trigger] pre.tags@[j].id as int)
            == refs_tag(post.note_tags@, pre.tags@[j].id as int))
    // the note now carries exactly the desired texts
    &&& forall|t: Seq<char>|
        #[trigger] note_has_text(post.tags@, post.note_tags@, note_id, t) == desired(texts, t)
    // association rows of other notes are untouched
    &&& forall|k: int|
        0 <= k < pre.note_tags@.len() && #[trigger] pre.note_tags@[k].note_id != note_id
            ==> post.note_tags@.contains(pre.note_tags@[k])
    &&& forall|k: int|
        0 <= k < post.note_tags@.len() ==> (#[trigger] post.note_tags@[k].note_id == note_id
            || pre.note_tags@.contains(post.note_tags@[k]))
    // the pool holds no garbage afterwards
    &&& no_orphan_tags(post.tags@, post.note_tags@)
}

impl Note {
    /// Joins the note with its tag texts, sorted lexicographically.
    pub fn with_tags(&self, db: &Store) -> (r: Option<NoteWithTags>)
        requires
            db.wf(),
        ensures
            r is Some,
            nwt_fields_match(r.unwrap(), *self),
            nwt_tags_exact(r.unwrap(), db.tags@, db.note_tags@, self.id as int),
    {
        let tags = db.tags_for_note(self.id);
        Some(
            NoteWithTags {
                id: self.id,
                title: self.title.clone(),
                body: self.body.clone(),
                tags,
                created_at: self.created_at,
                updated_at: self.updated_at,
                user_id: self.user_id,
                parent_note_id: self.parent_note_id,
                archived: self.archived,
                pinned: self.pinned,
            },
        )
    }

    /// Builds the read model from the note and the association rows of one
    /// grouped batch query, sorting the joined texts and dropping
    /// repetitions.
    pub fn with(self, t: Vec<NoteToTag>) -> (r: NoteWithTags)
        ensures
            nwt_fields_match(r, self),
            sorted_texts(views_of(r.tags@)),
            distinct_texts(views_of(r.tags@)),
            forall|x: Seq<char>|
                #[trigger] contains_text(views_of(r.tags@), x) == (exists|k: int|
                    0 <= k < t@.len() && t@[k].tag@ == x),
    {
        let n = t.len();
        let mut texts: Vec<String> = Vec::new();
        let mut i: usize = 0;
        while i < n
            invariant
                0 <= i <= n,
                n == t@.len(),
                texts@.len() == i,
                forall|k: int| 0 <= k < i ==> views_of(texts@)[k] == #[trigger] t@[k].tag@,
            decreases n - i,
        {
            texts.push(t[i].tag.clone());
            i = i + 1;
        }
        let uniq = crate::lex::dedup_texts(&texts);
        let sorted = crate::lex::sort_texts(&uniq);
        proof {
            assert forall|x: Seq<char>|
                #[trigger] contains_text(views_of(sorted@), x) == (exists|k: int|
                    0 <= k < t@.len() && t@[k].tag@ == x) by {
                assert(contains_text(views_of(sorted@), x) == contains_text(views_of(texts@), x));
                if contains_text(views_of(texts@), x) {
                    let w = choose|w: int|
                        0 <= w < views_of(texts@).len() && views_of(texts@)[w] == x;
                    assert(t@[w].tag@ == x);
                }
                if exists|k: int| 0 <= k < t@.len() && t@[k].tag@ == x {
                    let w = choose|k: int| 0 <= k < t@.len() && t@[k].tag@ == x;
                    assert(views_of(texts@)[w] == x);
                }
            }
        }
        NoteWithTags {
            id: self.id,
            title: self.title,
            body: self.body,
            tags: sorted,
            created_at: self.created_at,
            updated_at: self.updated_at,
            user_id: self.user_id,
            parent_note_id: self.parent_note_id,
            archived: self.archived,
            pinned: self.pinned,
        }
    }
}

impl User {
    /// Reads one note of this user, with its sorted tag list. Asking for a
    /// note that does not exist, or that belongs to someone else, is a
    /// `NotFound` — whose note it is stays opaque to the caller.
    pub fn note(&self, id: i32, db: &Store) -> (r: Result<NoteWithTags, DbError>)
        requires
            db.wf(),
        ensures
            r is Ok == has_user_note(db.notes@, self.id as int, id as int),
            match r {
                Result::Ok(nwt) => {
                    &&& exists|i: int|
                        0 <= i < db.notes@.len() && (#[trigger] db.notes@[i]).id == id
                            && db.notes@[i].user_id == self.id && nwt_fields_match(nwt, db.notes@[i])
                    &&& nwt_tags_exact(nwt, db.tags@, db.note_tags@, id as int)
                },
                Result::Err(e) => e is NotFound,
            },
    {
        match db.note_index_for_user(self.id, id) {
            Some(i) => {
                let found = db.notes[i].with_tags(db);
                match found {
                    Some(nwt) => {
                        proof {
                            assert((#[trigger] db.notes@[i as int]).id == id && db.notes@[i as int].user_id
                                == self.id);
                        }
                        Ok(nwt)
                    },
                    None => {
                        assert(false);
                        Err(DbError::NotFound)
                    },
                }
            },
            None => Err(DbError::NotFound),
        }
    }

    /// Creates a note for this user: a fresh row, stamped with the store's
    /// clock, with no tags yet. An absent parent is stored as identifier 0,
    /// the root.
    pub fn new_note(&self, new_note: &NewNote, db: &mut Store) -> (r: Result<NoteWithTags, DbError>)
        requires
            old(db).wf(),
            old(db).next_note_id < i32::MAX,
        ensures
            final(db).wf(),
            r is Ok,
            final(db).users@ == old(db).users@,
            final(db).tags@ == old(db).tags@,
            final(db).note_tags@ == old(db).note_tags@,
            final(db).next_user_id == old(db).next_user_id,
            final(db).next_tag_id == old(db).next_tag_id,
            final(db).next_note_tag_id == old(db).next_note_tag_id,
            final(db).next_note_id == old(db).next_note_id + 1,
            final(db).clock == old(db).clock,
            final(db).notes@.len() == old(db).notes@.len() + 1,
            forall|k: int| 0 <= k < old(db).notes@.len() ==> final(db).notes@[k] == old(db).notes@[k],
            ({
                let n = final(db).notes@[old(db).notes@.len() as int];
                &&& n.id == old(db).next_note_id
                &&& n.title@ == new_note.title@
                &&& n.body@ == new_note.body@
                &&& n.user_id == self.id
                &&& n.parent_note_id == match new_note.parent_note_id {
                    Option::Some(p) => p,
                    Option::None => 0i32,
                }
                &&& n.archived == false
                &&& n.pinned == false
                &&& n.created_at == old(db).clock
                &&& n.updated_at == old(db).clock
                &&& match r {
                    Result::Ok(nwt) => nwt_fields_match(nwt, n) && nwt.tags@.len() == 0,
                    Result::Err(_) => false,
                }
            }),
    {
        let ghost pre = *db;
        let parent = match new_note.parent_note_id {
            Some(p) => p,
            None => 0,
        };
        let row = Note {
            id: db.next_note_id,
            title: new_note.title.clone(),
            body: new_note.body.clone(),
            created_at: db.clock,
            updated_at: db.clock,
            user_id: self.id,
            parent_note_id: parent,
            archived: false,
            pinned: false,
        };
        let nwt = NoteWithTags {
            id: row.id,
            title: row.title.clone(),
            body: row.body.clone(),
            tags: Vec::new(),
            created_at: row.created_at,
            updated_at: row.updated_at,
            user_id: row.user_id,
            parent_note_id: row.parent_note_id,
            archived: row.archived,
            pinned: row.pinned,
        };
        db.notes.push(row);
        db.next_note_id = db.next_note_id + 1;
        proof {
            assert forall|a: int, b: int| 0 <= a < b < db.notes@.len() implies db.notes@[a].id
                != db.notes@[b].id by {
                if b == db.notes@.len() - 1 {
                    assert(db.notes@[a] == pre.notes@[a]);
                    assert(0 <= pre.notes@[a].id < pre.next_note_id);
                }
            }
            assert forall|k: int|
                0 <= k < db.note_tags@.len() implies has_note_id(
                db.notes@,
                #[trigger] db.note_tags@[k].note_id as int,
            ) && has_tag_id(db.tags@, db.note_tags@[k].tag_id as int) by {
                assert(has_note_id(pre.notes@, pre.note_tags@[k].note_id as int));
                let w = choose|w: int|
                    0 <= w < pre.notes@.len() && pre.notes@[w].id == pre.note_tags@[k].note_id;
                assert(db.notes@[w].id == db.note_tags@[k].note_id);
                assert(has_tag_id(pre.tags@, pre.note_tags@[k].tag_id as int));
            }
            assert forall|j: int| 0 <= j < db.notes@.len() implies 0 <= #[trigger] db.notes@[j].id
                < db.next_note_id by {
                if j < pre.notes@.len() {
                    assert(db.notes@[j] == pre.notes@[j]);
                }
            }
        }
        Ok(nwt)
    }

    /// Reads every note of this user, in the order of the table, each with
    /// its sorted tag list.
    pub fn list_notes(&self, db: &Store) -> (r: Result<Vec<NoteWithTags>, DbError>)
        requires
            db.wf(),
        ensures
            match r {
                Result::Ok(list) => {
                    let mine = db.notes@.filter(|n: Note| n.user_id == self.id);
                    &&& list@.len() == mine.len()
                    &&& forall|k: int|
                        0 <= k < list@.len() ==> nwt_fields_match(#[trigger] list@[k], mine[k])
                            && nwt_tags_exact(list@[k], db.tags@, db.note_tags@, mine[k].id as int)
                },
                Result::Err(_) => false,
            },
    {
        let ghost pred = |n: Note| n.user_id == self.id;
        let n = db.notes.len();
        let mut list: Vec<NoteWithTags> = Vec::new();
        let mut i: usize = 0;
        while i < n
            invariant
                0 <= i <= n,
                n == db.notes@.len(),
                db.wf(),
                pred == (|n: Note| n.user_id == self.id),
                list@.len() == db.notes@.take(i as int).filter(pred).len(),
                forall|k: int|
                    0 <= k < list@.len() ==> nwt_fields_match(
                        #[trigger] list@[k],
                        db.notes@.take(i as int).filter(pred)[k],
                    ) && nwt_tags_exact(
                        list@[k],
                        db.tags@,
                        db.note_tags@,
                        db.notes@.take(i as int).filter(pred)[k].id as int,
                    ),
            decreases n - i,
        {
            let ghost pre_filtered = db.notes@.take(i as int).filter(pred);
            proof {
                lemma_filter_take_step(db.notes@, i as int, pred);
            }
            if db.notes[i].user_id == self.id {
                let found = db.notes[i].with_tags(db);
                match found {
                    Some(nwt) => {
                        list.push(nwt);
                        proof {
                            let now_filtered = db.notes@.take(i + 1).filter(pred);
                            assert(now_filtered == pre_filtered.push(db.notes@[i as int]));
                            assert(forall|k: int|
                                0 <= k < pre_filtered.len() ==> #[trigger] now_filtered[k]
                                    == pre_filtered[k]);
                        }
                    },
                    None => {
                        assert(false);
                    },
                }
            } else {
                proof {
                    assert(db.notes@.take(i + 1).filter(pred) == pre_filtered);
                }
            }
            i = i + 1;
        }
        proof {
            assert(db.notes@.take(n as int) =~= db.notes@);
        }
        Ok(list)
    }

    /// Updates the fields of one note of this user that the payload
    /// provides, stamps the row with the store's clock, and reads the note
    /// back with its sorted tag list.
    pub fn update_note(&self, id: i32, note: &UpdateNote, db: &mut Store) -> (r: Result<
        NoteWithTags,
        DbError,
    >)
        requires
            old(db).wf(),
        ensures
            final(db).wf(),
            r is Ok == has_user_note(old(db).notes@, self.id as int, id as int),
            final(db).users@ == old(db).users@,
            final(db).tags@ == old(db).tags@,
            final(db).note_tags@ == old(db).note_tags@,
            final(db).next_user_id == old(db).next_user_id,
            final(db).next_note_id == old(db).next_note_id,
            final(db).next_tag_id == old(db).next_tag_id,
            final(db).next_note_tag_id == old(db).next_note_tag_id,
            final(db).clock == old(db).clock,
            match r {
                Result::Ok(nwt) => {
                    &&& exists|i: int|
                        0 <= i < old(db).notes@.len() && (#[trigger] old(db).notes@[i]).id == id
                            && old(db).notes@[i].user_id == self.id && final(db).notes@
                            == old(db).notes@.update(
                            i,
                            apply_update(old(db).notes@[i], *note, old(db).clock),
                        ) && nwt_fields_match(
                            nwt,
                            apply_update(old(db).notes@[i], *note, old(db).clock),
                        )
                    &&& nwt_tags_exact(nwt, final(db).tags@, final(db).note_tags@, id as int)
                },
                Result::Err(e) => e is NotFound && *final(db) == *old(db),
            },
    {
        let found = db.note_index_for_user(self.id, id);
        match found {
            Some(i) => {
                let ghost pre = *db;
                let old_row = db.notes.remove(i);
                let new_row = Note {
                    id: old_row.id,
                    title: match &note.title {
                        Some(t) => t.clone(),
                        None => old_row.title,
                    },
                    body: match &note.body {
                        Some(b) => b.clone(),
                        None => old_row.body,
                    },
                    created_at: old_row.created_at,
                    updated_at: db.clock,
                    user_id: old_row.user_id,
                    parent_note_id: match note.parent_note_id {
                        Some(p) => p,
                        None => old_row.parent_note_id,
                    },
                    archived: match note.archived {
                        Some(a) => a,
                        None => old_row.archived,
                    },
                    pinned: match note.pinned {
                        Some(p) => p,
                        None => old_row.pinned,
                    },
                };
                proof {
                    assert(new_row == apply_update(pre.notes@[i as int], *note, pre.clock));
                }
                db.notes.insert(i, new_row);
                proof {
                    pre.notes@.remove_ensures(i as int);
                    pre.notes@.remove(i as int).insert_ensures(
                        i as int,
                        apply_update(pre.notes@[i as int], *note, pre.clock),
                    );
                    assert(db.notes@ =~= pre.notes@.update(
                        i as int,
                        apply_update(pre.notes@[i as int], *note, pre.clock),
                    ));
                    let upd = db.notes@;
                    assert(upd[i as int].id == pre.notes@[i as int].id);
                    assert forall|a: int, b: int| 0 <= a < b < upd.len() implies upd[a].id
                        != upd[b].id by {
                        assert(upd[a].id == pre.notes@[a].id && upd[b].id == pre.notes@[b].id);
                    }
                    assert forall|k: int|
                        0 <= k < db.note_tags@.len() implies has_note_id(
                        db.notes@,
                        #[trigger] db.note_tags@[k].note_id as int,
                    ) && has_tag_id(db.tags@, db.note_tags@[k].tag_id as int) by {
                        assert(has_note_id(pre.notes@, pre.note_tags@[k].note_id as int));
                        let w = choose|w: int|
                            0 <= w < pre.notes@.len() && pre.notes@[w].id
                                == pre.note_tags@[k].note_id;
                        assert(upd[w].id == pre.notes@[w].id);
                        assert(has_tag_id(pre.tags@, pre.note_tags@[k].tag_id as int));
                    }
                    assert forall|j: int| 0 <= j < upd.len() implies 0 <= #[trigger] upd[j].id
                        < db.next_note_id by {
                        assert(upd[j].id == pre.notes@[j].id);
                    }
                }
                let reread = self.note(id, db);
                proof {
                    assert(has_user_note(db.notes@, self.id as int, id as int)) by {
                        assert(db.notes@[i as int].id == id && db.notes@[i as int].user_id
                            == self.id);
                    }
                    assert(reread is Ok);
                    if let Result::Ok(ref nwt) = reread {
                        let w = choose|w: int|
                            0 <= w < db.notes@.len() && (#[trigger] db.notes@[w]).id == id
                                && db.notes@[w].user_id == self.id && nwt_fields_match(
                                *nwt,
                                db.notes@[w],
                            );
                        assert(w == i as int) by {
                            if w != i as int {
                                assert(db.notes@[w].id != db.notes@[i as int].id);
                            }
                        }
                        assert((#[trigger] pre.notes@[i as int]).id == id && pre.notes@[i as int].user_id
                            == self.id);
                    }
                }
                reread
            },
            None => Err(DbError::NotFound),
        }
    }

    /// Deletes one note of this user. A note that still carries tags is
    /// referenced by association rows, and the store refuses to remove a
    /// referenced row, as a relational store with foreign keys does; the
    /// call then reports `false` and changes nothing, as it does for a note
    /// that does not exist.
    pub fn delete_note(&self, id: i32, db: &mut Store) -> (r: bool)
        requires
            old(db).wf(),
        ensures
            final(db).wf(),
            r == (has_user_note(old(db).notes@, self.id as int, id as int) && !refs_note(
                old(db).note_tags@,
                id as int,
            )),
            !r ==> *final(db) == *old(db),
            r ==> {
                &&& exists|i: int|
                    0 <= i < old(db).notes@.len() && (#[trigger] old(db).notes@[i]).id == id
                        && old(db).notes@[i].user_id == self.id && final(db).notes@
                        == old(db).notes@.remove(i)
                &&& final(db).users@ == old(db).users@
                &&& final(db).tags@ == old(db).tags@
                &&& final(db).note_tags@ == old(db).note_tags@
                &&& final(db).next_user_id == old(db).next_user_id
                &&& final(db).next_note_id == old(db).next_note_id
                &&& final(db).next_tag_id == old(db).next_tag_id
                &&& final(db).next_note_tag_id == old(db).next_note_tag_id
                &&& final(db).clock == old(db).clock
            },
    {
        let found = db.note_index_for_user(self.id, id);
        match found {
            Some(i) => {
                let referenced = db.note_referenced(id);
                if referenced {
                    return false;
                }
                let ghost pre = *db;
                let _ = db.notes.remove(i);
                proof {
                    pre.notes@.remove_ensures(i as int);
                    let upd = db.notes@;
                    assert forall|a: int, b: int| 0 <= a < b < upd.len() implies upd[a].id
                        != upd[b].id by {
                        let a0: int = if a < i { a } else { a + 1 };
                        let b0: int = if b < i { b } else { b + 1 };
                        assert(upd[a] == pre.notes@[a0] && upd[b] == pre.notes@[b0]);
                    }
                    assert forall|k: int|
                        0 <= k < db.note_tags@.len() implies has_note_id(
                        db.notes@,
                        #[trigger] db.note_tags@[k].note_id as int,
                    ) && has_tag_id(db.tags@, db.note_tags@[k].tag_id as int) by {
                        assert(has_note_id(pre.notes@, pre.note_tags@[k].note_id as int));
                        let w = choose|w: int|
                            0 <= w < pre.notes@.len() && pre.notes@[w].id
                                == pre.note_tags@[k].note_id;
                        assert(pre.note_tags@[k].note_id != id) by {
                            if pre.note_tags@[k].note_id == id {
                                assert(refs_note(pre.note_tags@, id as int));
                            }
                        }
                        assert(w != i as int) by {
                            if w == i as int {
                                assert(pre.notes@[w].id == id);
                            }
                        }
                        let w2: int = if w < i { w } else { w - 1 };
                        assert(upd[w2] == pre.notes@[w]);
                        assert(has_tag_id(pre.tags@, pre.note_tags@[k].tag_id as int));
                    }
                    assert forall|j: int| 0 <= j < upd.len() implies 0 <= #[trigger] upd[j].id
                        < db.next_note_id by {
                        let j0: int = if j < i { j } else { j + 1 };
                        assert(upd[j] == pre.notes@[j0]);
                    }
                }
                true
            },
            None => false,
        }
    }

    /// The tag-reconciliation transaction: atomically replaces the tag set
    /// of one note of this user with the given texts.
    ///
    /// The desired list is deduplicated; texts never seen before get fresh
    /// pool rows through an insert-if-absent write; the note's association
    /// rows are deleted and rewritten wholesale; and every tag row that no
    /// association references any more — whichever note it belonged to — is
    /// deleted. The note comes back with its tag list sorted.
    ///
    /// A note that does not exist, or that belongs to someone else, is
    /// reported as `NotFound` and the store is left exactly as it was.
    #[verifier::rlimit(60)]
    pub fn set_note_tags(&self, current_note_id: i32, set_tags: &Vec<String>, db: &mut Store) -> (r:
        Result<NoteWithTags, DbError>)
        requires
            old(db).wf(),
            old(db).next_tag_id + set_tags@.len() <= i32::MAX,
            old(db).next_note_tag_id + set_tags@.len() <= i32::MAX,
        ensures
            final(db).wf(),
            r is Ok == has_user_note(old(db).notes@, self.id as int, current_note_id as int),
            final(db).next_tag_id <= old(db).next_tag_id + set_tags@.len(),
            final(db).next_note_tag_id <= old(db).next_note_tag_id + set_tags@.len(),
            match r {
                Result::Ok(nwt) => {
                    &&& reconciled(*old(db), current_note_id as int, set_tags@, *final(db))
                    &&& exists|i: int|
                        0 <= i < final(db).notes@.len() && (#[trigger] final(db).notes@[i]).id
                            == current_note_id && final(db).notes@[i].user_id == self.id
                            && nwt_fields_match(nwt, final(db).notes@[i])
                    &&& nwt_tags_exact(
                        nwt,
                        final(db).tags@,
                        final(db).note_tags@,
                        current_note_id as int,
                    )
                    &&& forall|t: Seq<char>|
                        #[trigger] contains_text(views_of(nwt.tags@), t) == desired(set_tags@, t)
                },
                Result::Err(e) => e is NotFound && *final(db) == *old(db),
            },
    {
        let idx = db.note_index_for_user(self.id, current_note_id);
        if idx.is_none() {
            return Err(DbError::NotFound);
        }
        let ghost s0 = *db;
        // step 1: deduplicate the desired texts
        let uniq = crate::lex::dedup_texts(set_tags);
        let ghost duniq = views_of(uniq@);
        // steps 2 and 3: pool every text not already pooled; the write is
        // insert-if-absent, so a text pooled meanwhile costs nothing
        db.ensure_exist(&uniq);
        let ghost s1 = *db;
        // step 4: resolve the full desired set to row identifiers
        let tag_ids = db.resolve(&uniq);
        // step 5: delete the note's association rows, then insert the new set
        db.replace_for_note(current_note_id, &tag_ids);
        let ghost s2 = *db;
        // step 6: delete every tag row nothing references — computed from
        // the live association table, not from a stale candidate set
        db.collect_garbage();
        let ghost s3 = *db;
        proof {
            lemma_reconcile_steps(s0, s1, s2, s3, current_note_id, set_tags@, uniq@, tag_ids@);
        }
        // step 7: re-fetch the note with its sorted tag list
        let result = self.note(current_note_id, db);
        proof {
            assert(result is Ok);
            if let Result::Ok(ref nwt) = result {
                assert forall|t: Seq<char>|
                    #[trigger] contains_text(views_of(nwt.tags@), t) == desired(set_tags@, t) by {
                    assert(contains_text(views_of(nwt.tags@), t) == note_has_text(
                        s3.tags@,
                        s3.note_tags@,
                        current_note_id as int,
                        t,
                    ));
                }
            }
        }
        result
    }
}

/// Stitches the postconditions of the four store steps — pool, resolve,
/// replace, collect — into the end-to-end reconciliation relation.
#[verifier::rlimit(60)]
proof fn lemma_reconcile_steps(
    s0: Store,
    s1: Store,
    s2: Store,
    s3: Store,
    note_id: i32,
    texts: Seq<String>,
    uniq: Seq<String>,
    tag_ids: Seq<i32>,
)
    requires
        s0.wf(),
        s1.wf(),
        s2.wf(),
        s3.wf(),
        // deduplication
        distinct_texts(views_of(uniq)),
        crate::lex::same_texts(views_of(uniq), views_of(texts)),
        uniq.len() <= texts.len(),
        // the insert-if-absent pool write
        s1.users@ == s0.users@,
        s1.notes@ == s0.notes@,
        s1.note_tags@ == s0.note_tags@,
        s1.next_user_id == s0.next_user_id,
        s1.next_note_id == s0.next_note_id,
        s1.next_note_tag_id == s0.next_note_tag_id,
        s1.clock == s0.clock,
        s1.next_tag_id >= s0.next_tag_id,
        s1.next_tag_id <= s0.next_tag_id + uniq.len(),
        s1.tags@.len() >= s0.tags@.len(),
        forall|k: int| 0 <= k < s0.tags@.len() ==> s1.tags@[k] == s0.tags@[k],
        forall|k: int| 0 <= k < uniq.len() ==> has_tag_text(s1.tags@, #[trigger] uniq[k]@),
        forall|j: int|
            s0.tags@.len() <= j < s1.tags@.len() ==> {
                let t = #[trigger] s1.tags@[j];
                &&& contains_text(views_of(uniq), t.tag@)
                &&& !has_tag_text(s0.tags@, t.tag@)
                &&& t.id >= s0.next_tag_id
            },
        // resolution
        tag_ids.len() == uniq.len(),
        forall|k: int|
            0 <= k < uniq.len() ==> has_tag_row(s1.tags@, #[trigger] tag_ids[k] as int, uniq[k]@),
        // the wholesale replacement of the note's rows
        s2.users@ == s1.users@,
        s2.notes@ == s1.notes@,
        s2.tags@ == s1.tags@,
        s2.next_user_id == s1.next_user_id,
        s2.next_note_id == s1.next_note_id,
        s2.next_tag_id == s1.next_tag_id,
        s2.clock == s1.clock,
        s2.next_note_tag_id >= s1.next_note_tag_id,
        s2.next_note_tag_id <= s1.next_note_tag_id + tag_ids.len(),
        forall|k: int|
            0 <= k < s1.note_tags@.len() && #[trigger] s1.note_tags@[k].note_id != note_id
                ==> s2.note_tags@.contains(s1.note_tags@[k]),
        forall|k: int|
            0 <= k < s2.note_tags@.len() ==> {
                let a = #[trigger] s2.note_tags@[k];
                if a.note_id == note_id {
                    tag_ids.contains(a.tag_id)
                } else {
                    s1.note_tags@.contains(a)
                }
            },
        forall|k: int|
            0 <= k < tag_ids.len() ==> note_has_tag(
                s2.note_tags@,
                note_id as int,
                #[trigger] tag_ids[k] as int,
            ),
        // garbage collection
        s3.users@ == s2.users@,
        s3.notes@ == s2.notes@,
        s3.note_tags@ == s2.note_tags@,
        s3.next_user_id == s2.next_user_id,
        s3.next_note_id == s2.next_note_id,
        s3.next_tag_id == s2.next_tag_id,
        s3.next_note_tag_id == s2.next_note_tag_id,
        s3.clock == s2.clock,
        forall|k: int|
            0 <= k < s2.tags@.len() ==> (s3.tags@.contains(#[trigger] s2.tags@[k]) == refs_tag(
                s2.note_tags@,
                s2.tags@[k].id as int,
            )),
        forall|k: int|
            0 <= k < s3.tags@.len() ==> s2.tags@.contains(#[trigger] s3.tags@[k]),
        no_orphan_tags(s3.tags@, s3.note_tags@),
    ensures
        reconciled(s0, note_id as int, texts, s3),
{
    let duniq = views_of(uniq);
    let nid = note_id as int;
    assert(s2.tags@ == s1.tags@);
    assert(s3.note_tags@ == s2.note_tags@);
    assert(s1.note_tags@ == s0.note_tags@);
    // a pooled row whose text is desired survives unchanged
    assert forall|j: int|
        0 <= j < s0.tags@.len() && desired(texts, #[trigger] s0.tags@[j].tag@)
        implies has_tag_row(s3.tags@, s0.tags@[j].id as int, s0.tags@[j].tag@) by {
        let row = s0.tags@[j];
        assert(s1.tags@[j] == row);
        assert(contains_text(duniq, row.tag@));
        let k = choose|k: int| 0 <= k < duniq.len() && duniq[k] == row.tag@;
        assert(has_tag_row(s1.tags@, tag_ids[k] as int, uniq[k]@));
        let w = choose|w: int|
            0 <= w < s1.tags@.len() && s1.tags@[w].id == tag_ids[k] && s1.tags@[w].tag@
                == uniq[k]@;
        assert(s1.tags@[w].tag@ == s1.tags@[j].tag@);
        assert(w == j);
        assert(note_has_tag(s2.note_tags@, nid, row.id as int));
        let m = choose|m: int|
            0 <= m < s2.note_tags@.len() && s2.note_tags@[m].note_id == nid
                && s2.note_tags@[m].tag_id == row.id as int;
        assert(refs_tag(s2.note_tags@, s2.tags@[j].id as int));
        assert(s3.tags@.contains(s2.tags@[j]));
        let u = choose|u: int| 0 <= u < s3.tags@.len() && s3.tags@[u] == row;
        assert(has_tag_row(s3.tags@, row.id as int, row.tag@));
    }
    // every desired text is pooled afterwards
    assert forall|t: Seq<char>| desired(texts, t) implies has_tag_text(s3.tags@, t) by {
        assert(contains_text(duniq, t));
        let k = choose|k: int| 0 <= k < duniq.len() && duniq[k] == t;
        assert(has_tag_row(s1.tags@, tag_ids[k] as int, uniq[k]@));
        let w = choose|w: int|
            0 <= w < s1.tags@.len() && s1.tags@[w].id == tag_ids[k] && s1.tags@[w].tag@
                == uniq[k]@;
        assert(note_has_tag(s2.note_tags@, nid, tag_ids[k] as int));
        assert(refs_tag(s2.note_tags@, s2.tags@[w].id as int));
        assert(s3.tags@.contains(s2.tags@[w]));
        let u = choose|u: int| 0 <= u < s3.tags@.len() && s3.tags@[u] == s2.tags@[w];
        assert(s3.tags@[u].tag@ == t);
    }
    // every pooled row afterwards is an old row or a fresh desired one
    assert forall|j: int| 0 <= j < s3.tags@.len() implies {
        let t = #[trigger] s3.tags@[j];
        ||| has_tag_row(s0.tags@, t.id as int, t.tag@)
        ||| (desired(texts, t.tag@) && !has_tag_text(s0.tags@, t.tag@) && t.id
            >= s0.next_tag_id)
    } by {
        assert(s2.tags@.contains(s3.tags@[j]));
        let w = choose|w: int| 0 <= w < s2.tags@.len() && s2.tags@[w] == s3.tags@[j];
        if w < s0.tags@.len() {
            assert(s1.tags@[w] == s0.tags@[w]);
            assert(has_tag_row(s0.tags@, s3.tags@[j].id as int, s3.tags@[j].tag@));
        } else {
            assert(contains_text(duniq, s1.tags@[w].tag@));
            assert(desired(texts, s3.tags@[j].tag@));
        }
    }
    // an old row survives exactly when something still references it
    assert forall|j: int| 0 <= j < s0.tags@.len() implies (has_tag_id(
        s3.tags@,
        #[trigger] s0.tags@[j].id as int,
    ) == refs_tag(s3.note_tags@, s0.tags@[j].id as int)) by {
        let row = s0.tags@[j];
        assert(s2.tags@[j] == row);
        assert(s3.tags@.contains(s2.tags@[j]) == refs_tag(
            s2.note_tags@,
            s2.tags@[j].id as int,
        ));
        if refs_tag(s3.note_tags@, row.id as int) {
            assert(s3.tags@.contains(row));
            let u = choose|u: int| 0 <= u < s3.tags@.len() && s3.tags@[u] == row;
            assert(has_tag_id(s3.tags@, row.id as int));
        }
        if has_tag_id(s3.tags@, row.id as int) {
            let u = choose|u: int| 0 <= u < s3.tags@.len() && s3.tags@[u].id == row.id;
            assert(s2.tags@.contains(s3.tags@[u]));
            let w = choose|w: int| 0 <= w < s2.tags@.len() && s2.tags@[w] == s3.tags@[u];
            assert(s2.tags@[w].id == s2.tags@[j].id);
            assert(w == j);
            assert(s3.tags@.contains(row));
            assert(refs_tag(s2.note_tags@, row.id as int));
        }
    }
    // the note carries exactly the desired texts
    assert forall|t: Seq<char>|
        #[trigger] note_has_text(s3.tags@, s3.note_tags@, nid, t) == desired(texts, t) by {
        if note_has_text(s3.tags@, s3.note_tags@, nid, t) {
            let (m, j) = choose|m: int, j: int|
                0 <= m < s3.note_tags@.len() && 0 <= j < s3.tags@.len()
                    && s3.note_tags@[m].note_id == nid && s3.note_tags@[m].tag_id
                    == s3.tags@[j].id && s3.tags@[j].tag@ == t;
            let a = s2.note_tags@[m];
            assert(a.note_id == note_id);
            assert(tag_ids.contains(a.tag_id));
            let k = choose|k: int| 0 <= k < tag_ids.len() && tag_ids[k] == a.tag_id;
            assert(has_tag_row(s1.tags@, tag_ids[k] as int, uniq[k]@));
            let w = choose|w: int|
                0 <= w < s1.tags@.len() && s1.tags@[w].id == tag_ids[k] && s1.tags@[w].tag@
                    == uniq[k]@;
            assert(s2.tags@.contains(s3.tags@[j]));
            let u = choose|u: int| 0 <= u < s2.tags@.len() && s2.tags@[u] == s3.tags@[j];
            assert(s2.tags@[u].id == s2.tags@[w].id);
            assert(u == w);
            assert(t == duniq[k]);
            assert(contains_text(duniq, t));
            assert(desired(texts, t));
        }
        if desired(texts, t) {
            assert(contains_text(duniq, t));
            let k = choose|k: int| 0 <= k < duniq.len() && duniq[k] == t;
            assert(has_tag_row(s1.tags@, tag_ids[k] as int, uniq[k]@));
            let w = choose|w: int|
                0 <= w < s1.tags@.len() && s1.tags@[w].id == tag_ids[k] && s1.tags@[w].tag@
                    == uniq[k]@;
            assert(note_has_tag(s2.note_tags@, nid, tag_ids[k] as int));
            let m = choose|m: int|
                0 <= m < s2.note_tags@.len() && s2.note_tags@[m].note_id == nid
                    && s2.note_tags@[m].tag_id == tag_ids[k];
            assert(refs_tag(s2.note_tags@, s2.tags@[w].id as int));
            assert(s3.tags@.contains(s2.tags@[w]));
            let u = choose|u: int| 0 <= u < s3.tags@.len() && s3.tags@[u] == s2.tags@[w];
            assert(s3.note_tags@[m].note_id == nid && s3.note_tags@[m].tag_id
                == s3.tags@[u].id && s3.tags@[u].tag@ == t);
            assert(note_has_text(s3.tags@, s3.note_tags@, nid, t));
        }
    }
    assert(reconciled(s0, nid, texts, s3));
}

} // verus!
