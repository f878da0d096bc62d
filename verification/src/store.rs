//! The relational store: the persistent state of the service held as plain
//! tables, with the well-formedness invariant that the real database enforces
//! through unique and foreign-key constraints.

use vstd::prelude::*;

use crate::models::{Note, NoteTag, Tag, User};

verus! {

/// The whole persistent state: one value holds every table, and a mutating
/// operation on it stands for one committed transaction.
pub struct Store {
    pub users: Vec<User>,
    pub notes: Vec<Note>,
    pub tags: Vec<Tag>,
    pub note_tags: Vec<NoteTag>,
    pub next_user_id: i32,
    pub next_note_id: i32,
    pub next_tag_id: i32,
    pub next_note_tag_id: i32,
    /// The instant stamped onto rows created or updated now.
    pub clock: i64,
}

/// Is `id` the identifier of some user row?
pub open spec fn has_user_id(users: Seq<User>, id: int) -> bool {
    exists|i: int| 0 <= i < users.len() && users[i].id == id
}

/// Is `email` the email of some user row?
pub open spec fn has_user_email(users: Seq<User>, email: Seq<char>) -> bool {
    exists|i: int| 0 <= i < users.len() && users[i].email@ == email
}

/// Is `id` the identifier of some note row?
pub open spec fn has_note_id(notes: Seq<Note>, id: int) -> bool {
    exists|i: int| 0 <= i < notes.len() && notes[i].id == id
}

/// Is `id` the identifier of a note row owned by `user_id`?
pub open spec fn has_user_note(notes: Seq<Note>, user_id: int, id: int) -> bool {
    exists|i: int| 0 <= i < notes.len() && notes[i].id == id && notes[i].user_id == user_id
}

/// Is `id` the identifier of some tag row?
pub open spec fn has_tag_id(tags: Seq<Tag>, id: int) -> bool {
    exists|i: int| 0 <= i < tags.len() && tags[i].id == id
}

/// Is `text` the text of some tag row?
pub open spec fn has_tag_text(tags: Seq<Tag>, text: Seq<char>) -> bool {
    exists|i: int| 0 <= i < tags.len() && tags[i].tag@ == text
}

/// Does the pool hold a row with this identifier and this text?
pub open spec fn has_tag_row(tags: Seq<Tag>, id: int, text: Seq<char>) -> bool {
    exists|i: int| 0 <= i < tags.len() && tags[i].id == id && tags[i].tag@ == text
}

/// Does some association row reference tag `tag_id`?
pub open spec fn refs_tag(note_tags: Seq<NoteTag>, tag_id: int) -> bool {
    exists|i: int| 0 <= i < note_tags.len() && note_tags[i].tag_id == tag_id
}

/// Does some association row reference note `note_id`?
pub open spec fn refs_note(note_tags: Seq<NoteTag>, note_id: int) -> bool {
    exists|i: int| 0 <= i < note_tags.len() && note_tags[i].note_id == note_id
}

/// Does note `note_id` carry tag `tag_id`?
pub open spec fn note_has_tag(note_tags: Seq<NoteTag>, note_id: int, tag_id: int) -> bool {
    exists|i: int|
        0 <= i < note_tags.len() && note_tags[i].note_id == note_id && note_tags[i].tag_id == tag_id
}

/// Does note `note_id` carry a tag whose text is `text`?
pub open spec fn note_has_text(
    tags: Seq<Tag>,
    note_tags: Seq<NoteTag>,
    note_id: int,
    text: Seq<char>,
) -> bool {
    exists|i: int, j: int|
        0 <= i < note_tags.len() && 0 <= j < tags.len() && note_tags[i].note_id == note_id
            && note_tags[i].tag_id == tags[j].id && tags[j].tag@ == text
}

/// Every tag row is referenced by at least one association row: the pool
/// holds no garbage.
pub open spec fn no_orphan_tags(tags: Seq<Tag>, note_tags: Seq<NoteTag>) -> bool {
    forall|j: int| 0 <= j < tags.len() ==> refs_tag(note_tags, #[trigger] tags[j].id as int)
}

/// How `note_has_text` changes when one association row is appended.
proof fn lemma_note_has_text_push(
    tags: Seq<Tag>,
    note_tags: Seq<NoteTag>,
    a: NoteTag,
    note_id: int,
    t: Seq<char>,
)
    ensures
        note_has_text(tags, note_tags.push(a), note_id, t) == (note_has_text(
            tags,
            note_tags,
            note_id,
            t,
        ) || (a.note_id == note_id && has_tag_row(tags, a.tag_id as int, t))),
{
    let e = note_tags.push(a);
    if note_has_text(tags, e, note_id, t) {
        let (i, j) = choose|i: int, j: int|
            0 <= i < e.len() && 0 <= j < tags.len() && e[i].note_id == note_id && e[i].tag_id
                == tags[j].id && tags[j].tag@ == t;
        if i < note_tags.len() {
            assert(note_tags[i] == e[i]);
            assert(note_has_text(tags, note_tags, note_id, t));
        } else {
            assert(e[i] == a);
            assert(has_tag_row(tags, a.tag_id as int, t));
        }
    }
    if note_has_text(tags, note_tags, note_id, t) {
        let (i, j) = choose|i: int, j: int|
            0 <= i < note_tags.len() && 0 <= j < tags.len() && note_tags[i].note_id == note_id
                && note_tags[i].tag_id == tags[j].id && tags[j].tag@ == t;
        assert(e[i] == note_tags[i]);
        assert(note_has_text(tags, e, note_id, t));
    }
    if a.note_id == note_id && has_tag_row(tags, a.tag_id as int, t) {
        let j = choose|j: int| 0 <= j < tags.len() && tags[j].id == a.tag_id && tags[j].tag@ == t;
        assert(e[e.len() - 1] == a);
        assert(note_has_text(tags, e, note_id, t));
    }
}

impl Store {
    /// Row identifiers are unique within each table.
    pub open spec fn ids_unique(self) -> bool {
        &&& forall|i: int, j: int|
            0 <= i < j < self.users@.len() ==> self.users@[i].id != self.users@[j].id
        &&& forall|i: int, j: int|
            0 <= i < j < self.notes@.len() ==> self.notes@[i].id != self.notes@[j].id
        &&& forall|i: int, j: int|
            0 <= i < j < self.tags@.len() ==> self.tags@[i].id != self.tags@[j].id
        &&& forall|i: int, j: int|
            0 <= i < j < self.note_tags@.len() ==> self.note_tags@[i].id != self.note_tags@[j].id
    }

    /// The unique constraints of the schema: user emails and tag texts.
    pub open spec fn uniques_hold(self) -> bool {
        &&& forall|i: int, j: int|
            0 <= i < j < self.users@.len() ==> self.users@[i].email@ != self.users@[j].email@
        &&& forall|i: int, j: int|
            0 <= i < j < self.tags@.len() ==> self.tags@[i].tag@ != self.tags@[j].tag@
        &&& forall|i: int, j: int|
            0 <= i < j < self.note_tags@.len() ==> !(self.note_tags@[i].note_id
                == self.note_tags@[j].note_id && self.note_tags@[i].tag_id
                == self.note_tags@[j].tag_id)
    }

    /// The foreign keys of the schema: an association row references an
    /// existing note and an existing tag.
    pub open spec fn refs_hold(self) -> bool {
        forall|i: int|
            0 <= i < self.note_tags@.len() ==> has_note_id(
                self.notes@,
                #[trigger] self.note_tags@[i].note_id as int,
            ) && has_tag_id(self.tags@, self.note_tags@[i].tag_id as int)
    }

    /// Identifiers already handed out stay below the serial counters.
    pub open spec fn ids_bounded(self) -> bool {
        &&& 0 <= self.next_user_id
        &&& 0 <= self.next_note_id
        &&& 0 <= self.next_tag_id
        &&& 0 <= self.next_note_tag_id
        &&& forall|i: int|
            0 <= i < self.users@.len() ==> 0 <= #[trigger] self.users@[i].id < self.next_user_id
        &&& forall|i: int|
            0 <= i < self.notes@.len() ==> 0 <= #[trigger] self.notes@[i].id < self.next_note_id
        &&& forall|i: int|
            0 <= i < self.tags@.len() ==> 0 <= #[trigger] self.tags@[i].id < self.next_tag_id
        &&& forall|i: int|
            0 <= i < self.note_tags@.len() ==> 0 <= #[trigger] self.note_tags@[i].id
                < self.next_note_tag_id
    }

    /// Stored credentials carry this library's own PBKDF2 stamp: every
    /// user row's hash was written by the sign-up path, never by hand.
    pub open spec fn hashes_stored(self) -> bool {
        forall|i: int|
            0 <= i < self.users@.len() ==> crate::passwords::stored_hash_format(
                (#[trigger] self.users@[i]).hashed_password@,
            )
    }

    /// Well-formedness: everything the schema's constraints enforce.
    pub open spec fn wf(self) -> bool {
        &&& self.ids_unique()
        &&& self.uniques_hold()
        &&& self.refs_hold()
        &&& self.ids_bounded()
        &&& self.hashes_stored()
    }

    /// An empty store.
    pub fn new() -> (s: Store)
        ensures
            s.wf(),
            s.users@.len() == 0,
            s.notes@.len() == 0,
            s.tags@.len() == 0,
            s.note_tags@.len() == 0,
            no_orphan_tags(s.tags@, s.note_tags@),
            s.next_user_id == 1,
            s.next_note_id == 1,
            s.next_tag_id == 1,
            s.next_note_tag_id == 1,
            s.clock == 0,
    {
        Store {
            users: Vec::new(),
            notes: Vec::new(),
            tags: Vec::new(),
            note_tags: Vec::new(),
            next_user_id: 1,
            next_note_id: 1,
            next_tag_id: 1,
            next_note_tag_id: 1,
            clock: 0,
        }
    }

    /// Moves the store's clock; rows stamped from now on carry `now`.
    pub fn set_clock(&mut self, now: i64)
        ensures
            *final(self) == (Store { clock: now, ..*old(self) }),
    {
        self.clock = now;
    }

    /// Looks a tag row up by its text.
    fn tag_index_for_text(&self, text: &str) -> (r: Option<usize>)
        ensures
            match r {
                Some(i) => i < self.tags@.len() && self.tags@[i as int].tag@ == text@,
                None => !has_tag_text(self.tags@, text@),
            },
    {
        let n = self.tags.len();
        let mut i: usize = 0;
        while i < n
            invariant
                0 <= i <= n,
                n == self.tags@.len(),
                forall|k: int| 0 <= k < i ==> #[trigger] self.tags@[k].tag@ != text@,
            decreases n - i,
        {
            if crate::lex::str_eq(self.tags[i].tag.as_str(), text) {
                return Some(i);
            }
            i = i + 1;
        }
        None
    }

    /// Looks a tag row up by its identifier.
    fn tag_index_for_id(&self, tag_id: i32) -> (r: Option<usize>)
        ensures
            match r {
                Some(i) => i < self.tags@.len() && self.tags@[i as int].id == tag_id,
                None => !has_tag_id(self.tags@, tag_id as int),
            },
    {
        let n = self.tags.len();
        let mut i: usize = 0;
        while i < n
            invariant
                0 <= i <= n,
                n == self.tags@.len(),
                forall|k: int| 0 <= k < i ==> #[trigger] self.tags@[k].id != tag_id,
            decreases n - i,
        {
            if self.tags[i].id == tag_id {
                return Some(i);
            }
            i = i + 1;
        }
        None
    }

    /// Is some association row referencing this tag?
    fn tag_referenced(&self, tag_id: i32) -> (r: bool)
        ensures
            r == refs_tag(self.note_tags@, tag_id as int),
    {
        let n = self.note_tags.len();
        let mut i: usize = 0;
        while i < n
            invariant
                0 <= i <= n,
                n == self.note_tags@.len(),
                forall|k: int| 0 <= k < i ==> #[trigger] self.note_tags@[k].tag_id != tag_id,
            decreases n - i,
        {
            if self.note_tags[i].tag_id == tag_id {
                return true;
            }
            i = i + 1;
        }
        false
    }

    /// Looks a user row up by its email address.
    pub(crate) fn user_index_for_email(&self, email: &str) -> (r: Option<usize>)
        ensures
            match r {
                Some(i) => i < self.users@.len() && self.users@[i as int].email@ == email@,
                None => !has_user_email(self.users@, email@),
            },
    {
        let n = self.users.len();
        let mut i: usize = 0;
        while i < n
            invariant
                0 <= i <= n,
                n == self.users@.len(),
                forall|k: int| 0 <= k < i ==> #[trigger] self.users@[k].email@ != email@,
            decreases n - i,
        {
            if crate::lex::str_eq(self.users[i].email.as_str(), email) {
                return Some(i);
            }
            i = i + 1;
        }
        None
    }

    /// Is some association row referencing this note?
    pub(crate) fn note_referenced(&self, note_id: i32) -> (r: bool)
        ensures
            r == refs_note(self.note_tags@, note_id as int),
    {
        let n = self.note_tags.len();
        let mut i: usize = 0;
        while i < n
            invariant
                0 <= i <= n,
                n == self.note_tags@.len(),
                forall|k: int| 0 <= k < i ==> #[trigger] self.note_tags@[k].note_id != note_id,
            decreases n - i,
        {
            if self.note_tags[i].note_id == note_id {
                return true;
            }
            i = i + 1;
        }
        false
    }

    /// The index of the note row owned by `user_id` with this identifier.
    pub(crate) fn note_index_for_user(&self, user_id: i32, note_id: i32) -> (r: Option<usize>)
        ensures
            match r {
                Some(i) => i < self.notes@.len() && self.notes@[i as int].id == note_id
                    && self.notes@[i as int].user_id == user_id,
                None => !has_user_note(self.notes@, user_id as int, note_id as int),
            },
    {
        let n = self.notes.len();
        let mut i: usize = 0;
        while i < n
            invariant
                0 <= i <= n,
                n == self.notes@.len(),
                forall|k: int|
                    0 <= k < i ==> !(#[trigger] self.notes@[k].id == note_id && self.notes@[k].user_id
                        == user_id),
            decreases n - i,
        {
            if self.notes[i].id == note_id && self.notes[i].user_id == user_id {
                return Some(i);
            }
            i = i + 1;
        }
        None
    }

    /// Inserts a pool row for every text not already present: the
    /// insert-if-absent write of the tag pool. Rows already present are left
    /// exactly as they are, so concurrent callers asking for overlapping
    /// text sets merge instead of clashing.
    pub fn ensure_exist(&mut self, texts: &Vec<String>)
        requires
            old(self).wf(),
            old(self).next_tag_id + texts@.len() <= i32::MAX,
        ensures
            final(self).wf(),
            final(self).users@ == old(self).users@,
            final(self).notes@ == old(self).notes@,
            final(self).note_tags@ == old(self).note_tags@,
            final(self).next_user_id == old(self).next_user_id,
            final(self).next_note_id == old(self).next_note_id,
            final(self).next_note_tag_id == old(self).next_note_tag_id,
            final(self).clock == old(self).clock,
            final(self).next_tag_id >= old(self).next_tag_id,
            final(self).next_tag_id <= old(self).next_tag_id + texts@.len(),
            // old rows are kept in place
            final(self).tags@.len() >= old(self).tags@.len(),
            forall|k: int|
                0 <= k < old(self).tags@.len() ==> final(self).tags@[k] == old(self).tags@[k],
            // every asked-for text is now pooled
            forall|k: int|
                0 <= k < texts@.len() ==> has_tag_text(final(self).tags@, #[trigger] texts@[k]@),
            // new rows hold fresh identifiers and asked-for texts that were absent
            forall|j: int|
                old(self).tags@.len() <= j < final(self).tags@.len() ==> {
                    let t = #[trigger] final(self).tags@[j];
                    &&& crate::lex::contains_text(crate::lex::views_of(texts@), t.tag@)
                    &&& !has_tag_text(old(self).tags@, t.tag@)
                    &&& t.id >= old(self).next_tag_id
                    &&& t.created_at == old(self).clock
                    &&& t.updated_at == old(self).clock
                },
    {
        let n = texts.len();
        let mut i: usize = 0;
        while i < n
            invariant
                0 <= i <= n,
                n == texts@.len(),
                self.wf(),
                self.next_tag_id + (n - i) <= i32::MAX,
                self.users@ == old(self).users@,
                self.notes@ == old(self).notes@,
                self.note_tags@ == old(self).note_tags@,
                self.next_user_id == old(self).next_user_id,
                self.next_note_id == old(self).next_note_id,
                self.next_note_tag_id == old(self).next_note_tag_id,
                self.clock == old(self).clock,
                self.next_tag_id >= old(self).next_tag_id,
                self.next_tag_id <= old(self).next_tag_id + i,
                self.tags@.len() >= old(self).tags@.len(),
                forall|k: int|
                    0 <= k < old(self).tags@.len() ==> self.tags@[k] == old(self).tags@[k],
                forall|k: int|
                    0 <= k < i ==> has_tag_text(self.tags@, #[trigger] texts@[k]@),
                forall|j: int|
                    old(self).tags@.len() <= j < self.tags@.len() ==> {
                        let t = #[trigger] self.tags@[j];
                        &&& crate::lex::contains_text(crate::lex::views_of(texts@), t.tag@)
                        &&& !has_tag_text(old(self).tags@, t.tag@)
                        &&& t.id >= old(self).next_tag_id
                        &&& t.created_at == old(self).clock
                        &&& t.updated_at == old(self).clock
                    },
            decreases n - i,
        {
            let ghost pre = *self;
            let present = self.tag_index_for_text(texts[i].as_str());
            if present.is_none() {
                let row = Tag {
                    id: self.next_tag_id,
                    tag: texts[i].clone(),
                    created_at: self.clock,
                    updated_at: self.clock,
                };
                assert(row.tag@ == texts@[i as int]@);
                self.tags.push(row);
                self.next_tag_id = self.next_tag_id + 1;
                proof {
                    assert(pre.wf());
                    assert(crate::lex::views_of(texts@)[i as int] == texts@[i as int]@);
                    assert(self.tags@[self.tags@.len() - 1].tag@ == texts@[i as int]@);
                    assert forall|a: int, b: int|
                        0 <= a < b < self.tags@.len() implies self.tags@[a].id != self.tags@[b].id
                        && self.tags@[a].tag@ != self.tags@[b].tag@ by {
                        if b == self.tags@.len() - 1 {
                            assert(self.tags@[a] == pre.tags@[a]);
                            if self.tags@[a].tag@ == texts@[i as int]@ {
                                assert(has_tag_text(pre.tags@, texts@[i as int]@));
                            }
                        }
                    }
                    assert(self.note_tags@ == pre.note_tags@ && self.notes@ == pre.notes@);
                    assert forall|k: int|
                        0 <= k < self.note_tags@.len() implies has_note_id(
                        self.notes@,
                        #[trigger] self.note_tags@[k].note_id as int,
                    ) && has_tag_id(self.tags@, self.note_tags@[k].tag_id as int) by {
                        assert(has_note_id(pre.notes@, pre.note_tags@[k].note_id as int)
                            && has_tag_id(pre.tags@, pre.note_tags@[k].tag_id as int));
                        let w = choose|w: int|
                            0 <= w < pre.tags@.len() && pre.tags@[w].id == pre.note_tags@[k].tag_id;
                        assert(self.tags@[w].id == self.note_tags@[k].tag_id);
                    }
                    assert forall|j: int| 0 <= j < self.tags@.len() implies 0
                        <= #[trigger] self.tags@[j].id < self.next_tag_id by {
                        if j < pre.tags@.len() {
                            assert(self.tags@[j] == pre.tags@[j]);
                        }
                    }
                }
            } else {
                proof {
                    assert(has_tag_text(self.tags@, texts@[i as int]@));
                }
            }
            proof {
                assert forall|k: int| 0 <= k < i + 1 implies has_tag_text(
                    self.tags@,
                    #[trigger] texts@[k]@,
                ) by {
                    if k < i {
                        assert(has_tag_text(pre.tags@, texts@[k]@));
                        let w = choose|w: int|
                            0 <= w < pre.tags@.len() && pre.tags@[w].tag@ == texts@[k]@;
                        assert(self.tags@[w] == pre.tags@[w]);
                    }
                }
            }
            i = i + 1;
        }
    }

    /// Resolves pooled texts to their row identifiers, position by position.
    pub fn resolve(&self, texts: &Vec<String>) -> (r: Vec<i32>)
        requires
            self.wf(),
            crate::lex::distinct_texts(crate::lex::views_of(texts@)),
            forall|k: int| 0 <= k < texts@.len() ==> has_tag_text(self.tags@, #[trigger] texts@[k]@),
        ensures
            r@.len() == texts@.len(),
            forall|k: int|
                0 <= k < texts@.len() ==> has_tag_row(
                    self.tags@,
                    #[trigger] r@[k] as int,
                    texts@[k]@,
                ),
            forall|k1: int, k2: int| 0 <= k1 < k2 < r@.len() ==> r@[k1] != r@[k2],
    {
        let n = texts.len();
        let mut r: Vec<i32> = Vec::new();
        let mut i: usize = 0;
        while i < n
            invariant
                0 <= i <= n,
                n == texts@.len(),
                self.wf(),
                crate::lex::distinct_texts(crate::lex::views_of(texts@)),
                forall|k: int|
                    0 <= k < texts@.len() ==> has_tag_text(self.tags@, #[trigger] texts@[k]@),
                r@.len() == i,
                forall|k: int|
                    0 <= k < i ==> has_tag_row(self.tags@, #[trigger] r@[k] as int, texts@[k]@),
            decreases n - i,
        {
            let found = self.tag_index_for_text(texts[i].as_str());
            match found {
                Some(j) => {
                    let id = self.tags[j].id;
                    r.push(id);
                    assert(has_tag_row(self.tags@, id as int, texts@[i as int]@));
                    assert(forall|k: int|
                        0 <= k < i ==> has_tag_row(self.tags@, #[trigger] r@[k] as int, texts@[k]@));
                },
                None => {
                    assert(has_tag_text(self.tags@, texts@[i as int]@));
                    assert(false);
                },
            }
            i = i + 1;
        }
        proof {
            assert forall|k1: int, k2: int| 0 <= k1 < k2 < r@.len() implies r@[k1] != r@[k2] by {
                if r@[k1] == r@[k2] {
                    let w1 = choose|w: int|
                        0 <= w < self.tags@.len() && self.tags@[w].id == r@[k1] && self.tags@[w].tag@
                            == texts@[k1]@;
                    let w2 = choose|w: int|
                        0 <= w < self.tags@.len() && self.tags@[w].id == r@[k2] && self.tags@[w].tag@
                            == texts@[k2]@;
                    assert(crate::lex::views_of(texts@)[k1] == texts@[k1]@);
                    assert(crate::lex::views_of(texts@)[k2] == texts@[k2]@);
                    assert(texts@[k1]@ != texts@[k2]@);
                    assert(w1 != w2);
                    assert(self.tags@[w1].id != self.tags@[w2].id);
                }
            }
        }
        r
    }

    /// Replaces the association rows of one note: every existing row of the
    /// note is deleted, then one row per given tag identifier is inserted.
    pub fn replace_for_note(&mut self, note_id: i32, tag_ids: &Vec<i32>)
        requires
            old(self).wf(),
            has_note_id(old(self).notes@, note_id as int),
            forall|k: int|
                0 <= k < tag_ids@.len() ==> has_tag_id(old(self).tags@, #[trigger] tag_ids@[k] as int),
            forall|k1: int, k2: int| 0 <= k1 < k2 < tag_ids@.len() ==> tag_ids@[k1] != tag_ids@[k2],
            old(self).next_note_tag_id + tag_ids@.len() <= i32::MAX,
        ensures
            final(self).wf(),
            final(self).users@ == old(self).users@,
            final(self).notes@ == old(self).notes@,
            final(self).tags@ == old(self).tags@,
            final(self).next_user_id == old(self).next_user_id,
            final(self).next_note_id == old(self).next_note_id,
            final(self).next_tag_id == old(self).next_tag_id,
            final(self).clock == old(self).clock,
            final(self).next_note_tag_id >= old(self).next_note_tag_id,
            final(self).next_note_tag_id <= old(self).next_note_tag_id + tag_ids@.len(),
            // rows of other notes are kept
            forall|k: int|
                0 <= k < old(self).note_tags@.len() && #[trigger] old(self).note_tags@[k].note_id
                    != note_id ==> final(self).note_tags@.contains(old(self).note_tags@[k]),
            // every row is a kept row of another note or one of the new rows
            forall|k: int|
                0 <= k < final(self).note_tags@.len() ==> {
                    let a = #[trigger] final(self).note_tags@[k];
                    if a.note_id == note_id {
                        tag_ids@.contains(a.tag_id)
                    } else {
                        old(self).note_tags@.contains(a)
                    }
                },
            // the note now carries exactly the given tags
            forall|k: int|
                0 <= k < tag_ids@.len() ==> note_has_tag(
                    final(self).note_tags@,
                    note_id as int,
                    #[trigger] tag_ids@[k] as int,
                ),
    {
        let n = self.note_tags.len();
        let mut kept: Vec<NoteTag> = Vec::new();
        let mut i: usize = 0;
        while i < n
            invariant
                0 <= i <= n,
                n == self.note_tags@.len(),
                self.wf(),
                forall|k: int|
                    0 <= k < kept@.len() ==> #[trigger] kept@[k].note_id != note_id,
                forall|k: int|
                    0 <= k < kept@.len() ==> exists|w: int|
                        0 <= w < i && self.note_tags@[w] == #[trigger] kept@[k],
                forall|k: int|
                    0 <= k < i && #[trigger] self.note_tags@[k].note_id != note_id
                        ==> kept@.contains(self.note_tags@[k]),
                forall|k1: int, k2: int|
                    0 <= k1 < k2 < kept@.len() ==> kept@[k1].id != kept@[k2].id && !(kept@[k1].note_id
                        == kept@[k2].note_id && kept@[k1].tag_id == kept@[k2].tag_id),
            decreases n - i,
        {
            let a = &self.note_tags[i];
            if a.note_id != note_id {
                let row = NoteTag { id: a.id, note_id: a.note_id, tag_id: a.tag_id };
                assert(row == self.note_tags@[i as int]);
                let ghost pre_kept = kept@;
                kept.push(row);
                proof {
                    assert forall|k: int| 0 <= k < kept@.len() implies exists|w: int|
                        0 <= w < i + 1 && self.note_tags@[w] == #[trigger] kept@[k] by {
                        if k < pre_kept.len() {
                            assert(kept@[k] == pre_kept[k]);
                            let w = choose|w: int|
                                0 <= w < i && self.note_tags@[w] == #[trigger] pre_kept[k];
                            assert(self.note_tags@[w] == kept@[k]);
                        } else {
                            assert(self.note_tags@[i as int] == kept@[k]);
                        }
                    }
                    assert forall|k1: int, k2: int| 0 <= k1 < k2 < kept@.len() implies kept@[k1].id
                        != kept@[k2].id && !(kept@[k1].note_id == kept@[k2].note_id
                        && kept@[k1].tag_id == kept@[k2].tag_id) by {
                        if k2 == kept@.len() - 1 {
                            assert(kept@[k1] == pre_kept[k1]);
                            let w1 = choose|w: int|
                                0 <= w < i && self.note_tags@[w] == #[trigger] pre_kept[k1];
                            assert(self.note_tags@[w1].id != self.note_tags@[i as int].id);
                        }
                    }
                    assert forall|k: int|
                        0 <= k < i + 1 && #[trigger] self.note_tags@[k].note_id != note_id
                        implies kept@.contains(self.note_tags@[k]) by {
                        if k < i {
                            let w = choose|w: int|
                                0 <= w < pre_kept.len() && pre_kept[w] == self.note_tags@[k];
                            assert(kept@[w] == self.note_tags@[k]);
                        } else {
                            assert(kept@[kept@.len() - 1] == self.note_tags@[k]);
                        }
                    }
                }
            } else {
                proof {
                    assert forall|k: int|
                        0 <= k < i + 1 && #[trigger] self.note_tags@[k].note_id != note_id
                        implies kept@.contains(self.note_tags@[k]) by {
                        assert(k < i);
                    }
                }
            }
            i = i + 1;
        }
        let ghost pre = *self;
        self.note_tags = kept;
        proof {
            assert forall|k: int|
                0 <= k < self.note_tags@.len() implies has_note_id(
                self.notes@,
                #[trigger] self.note_tags@[k].note_id as int,
            ) && has_tag_id(self.tags@, self.note_tags@[k].tag_id as int)
                && 0 <= self.note_tags@[k].id < self.next_note_tag_id by {
                let w = choose|w: int|
                    0 <= w < n && pre.note_tags@[w] == #[trigger] self.note_tags@[k];
                assert(has_note_id(pre.notes@, pre.note_tags@[w].note_id as int) && has_tag_id(
                    pre.tags@,
                    pre.note_tags@[w].tag_id as int,
                ));
            }
        }
        let m = tag_ids.len();
        let mut j: usize = 0;
        while j < m
            invariant
                0 <= j <= m,
                m == tag_ids@.len(),
                self.users@ == pre.users@,
                self.notes@ == pre.notes@,
                self.tags@ == pre.tags@,
                self.next_user_id == pre.next_user_id,
                self.next_note_id == pre.next_note_id,
                self.next_tag_id == pre.next_tag_id,
                self.clock == pre.clock,
                self.next_note_tag_id + (m - j) <= i32::MAX,
                self.next_note_tag_id >= pre.next_note_tag_id,
                self.next_note_tag_id <= pre.next_note_tag_id + j,
                pre.wf(),
                has_note_id(self.notes@, note_id as int),
                forall|k: int|
                    0 <= k < tag_ids@.len() ==> has_tag_id(self.tags@, #[trigger] tag_ids@[k] as int),
                forall|k1: int, k2: int|
                    0 <= k1 < k2 < tag_ids@.len() ==> tag_ids@[k1] != tag_ids@[k2],
                self.wf(),
                // the kept prefix is unchanged
                forall|k: int|
                    0 <= k < pre.note_tags@.len() && #[trigger] pre.note_tags@[k].note_id != note_id
                        ==> self.note_tags@.contains(pre.note_tags@[k]),
                forall|k: int|
                    0 <= k < self.note_tags@.len() ==> {
                        let a = #[trigger] self.note_tags@[k];
                        if a.note_id == note_id {
                            tag_ids@.contains(a.tag_id)
                        } else {
                            pre.note_tags@.contains(a)
                        }
                    },
                forall|k: int|
                    0 <= k < j ==> note_has_tag(
                        self.note_tags@,
                        note_id as int,
                        #[trigger] tag_ids@[k] as int,
                    ),
                // rows of the note inserted so far follow the given order
                forall|k: int|
                    0 <= k < self.note_tags@.len() && #[trigger] self.note_tags@[k].note_id == note_id
                        ==> exists|w: int|
                        0 <= w < j && self.note_tags@[k].tag_id == #[trigger] tag_ids@[w],
            decreases m - j,
        {
            let ghost snap = *self;
            let row = NoteTag { id: self.next_note_tag_id, note_id, tag_id: tag_ids[j] };
            self.note_tags.push(row);
            self.next_note_tag_id = self.next_note_tag_id + 1;
            proof {
                let ghost new_len = self.note_tags@.len();
                assert(self.note_tags@[new_len - 1] == row);
                // uniqueness: the fresh identifier and the fresh pair
                assert forall|k1: int, k2: int| 0 <= k1 < k2 < new_len implies self.note_tags@[k1].id
                    != self.note_tags@[k2].id && !(self.note_tags@[k1].note_id
                    == self.note_tags@[k2].note_id && self.note_tags@[k1].tag_id
                    == self.note_tags@[k2].tag_id) by {
                    if k2 == new_len - 1 {
                        assert(self.note_tags@[k1] == snap.note_tags@[k1]);
                        assert(0 <= snap.note_tags@[k1].id < snap.next_note_tag_id);
                        if snap.note_tags@[k1].note_id == note_id {
                            let w = choose|w: int|
                                0 <= w < j && snap.note_tags@[k1].tag_id == #[trigger] tag_ids@[w];
                            assert(tag_ids@[w] != tag_ids@[j as int]);
                        }
                    }
                }
                assert forall|k: int|
                    0 <= k < new_len implies has_note_id(
                    self.notes@,
                    #[trigger] self.note_tags@[k].note_id as int,
                ) && has_tag_id(self.tags@, self.note_tags@[k].tag_id as int) by {
                    if k < new_len - 1 {
                        assert(self.note_tags@[k] == snap.note_tags@[k]);
                        assert(has_note_id(snap.notes@, snap.note_tags@[k].note_id as int)
                            && has_tag_id(snap.tags@, snap.note_tags@[k].tag_id as int));
                    } else {
                        assert(has_tag_id(self.tags@, tag_ids@[j as int] as int));
                    }
                }
                assert forall|k: int|
                    0 <= k < new_len implies 0 <= #[trigger] self.note_tags@[k].id
                    < self.next_note_tag_id by {
                    if k < new_len - 1 {
                        assert(self.note_tags@[k] == snap.note_tags@[k]);
                    }
                }
                // membership carries over the push
                assert forall|k: int|
                    0 <= k < pre.note_tags@.len() && #[trigger] pre.note_tags@[k].note_id != note_id
                    implies self.note_tags@.contains(pre.note_tags@[k]) by {
                    let w = choose|w: int|
                        0 <= w < snap.note_tags@.len() && snap.note_tags@[w] == pre.note_tags@[k];
                    assert(self.note_tags@[w] == pre.note_tags@[k]);
                }
                assert forall|k: int| 0 <= k < j + 1 implies note_has_tag(
                    self.note_tags@,
                    note_id as int,
                    #[trigger] tag_ids@[k] as int,
                ) by {
                    if k < j {
                        let w = choose|w: int|
                            0 <= w < snap.note_tags@.len() && snap.note_tags@[w].note_id == note_id
                                && snap.note_tags@[w].tag_id == tag_ids@[k];
                        assert(self.note_tags@[w] == snap.note_tags@[w]);
                    } else {
                        assert(self.note_tags@[new_len - 1].note_id == note_id
                            && self.note_tags@[new_len - 1].tag_id == tag_ids@[j as int]);
                    }
                }
                assert forall|k: int|
                    0 <= k < self.note_tags@.len() implies {
                    let a = #[trigger] self.note_tags@[k];
                    if a.note_id == note_id {
                        tag_ids@.contains(a.tag_id)
                    } else {
                        pre.note_tags@.contains(a)
                    }
                } by {
                    if k < new_len - 1 {
                        assert(self.note_tags@[k] == snap.note_tags@[k]);
                        let a = snap.note_tags@[k];
                        if a.note_id == note_id {
                            assert(tag_ids@.contains(a.tag_id));
                        } else {
                            assert(pre.note_tags@.contains(a));
                        }
                    } else {
                        assert(tag_ids@[j as int] == row.tag_id);
                        assert(tag_ids@.contains(row.tag_id));
                    }
                }
                assert forall|k: int|
                    0 <= k < self.note_tags@.len() && #[trigger] self.note_tags@[k].note_id == note_id
                    implies exists|w: int|
                    0 <= w < j + 1 && self.note_tags@[k].tag_id == #[trigger] tag_ids@[w] by {
                    if k < new_len - 1 {
                        assert(self.note_tags@[k] == snap.note_tags@[k]);
                        let w = choose|w: int|
                            0 <= w < j && snap.note_tags@[k].tag_id == #[trigger] tag_ids@[w];
                        assert(self.note_tags@[k].tag_id == tag_ids@[w]);
                    } else {
                        assert(self.note_tags@[k].tag_id == tag_ids@[j as int]);
                    }
                }
            }
            j = j + 1;
        }
    }

    /// Deletes every tag row that no association row references any more.
    /// Which rows are referenced is read from the live association table at
    /// this moment, so rows attached by other operations are never touched.
    pub fn collect_garbage(&mut self)
        requires
            old(self).wf(),
        ensures
            final(self).wf(),
            final(self).users@ == old(self).users@,
            final(self).notes@ == old(self).notes@,
            final(self).note_tags@ == old(self).note_tags@,
            final(self).next_user_id == old(self).next_user_id,
            final(self).next_note_id == old(self).next_note_id,
            final(self).next_tag_id == old(self).next_tag_id,
            final(self).next_note_tag_id == old(self).next_note_tag_id,
            final(self).clock == old(self).clock,
            // a row is kept exactly when it is still referenced
            forall|k: int|
                0 <= k < old(self).tags@.len() ==> (final(self).tags@.contains(
                    #[trigger] old(self).tags@[k],
                ) == refs_tag(old(self).note_tags@, old(self).tags@[k].id as int)),
            // kept rows are old rows
            forall|k: int|
                0 <= k < final(self).tags@.len() ==> old(self).tags@.contains(
                    #[trigger] final(self).tags@[k],
                ),
            no_orphan_tags(final(self).tags@, final(self).note_tags@),
    {
        let n = self.tags.len();
        let mut kept: Vec<Tag> = Vec::new();
        let mut i: usize = 0;
        while i < n
            invariant
                0 <= i <= n,
                n == self.tags@.len(),
                self.wf(),
                forall|k: int|
                    0 <= k < kept@.len() ==> exists|w: int|
                        0 <= w < i && self.tags@[w] == #[trigger] kept@[k],
                forall|k: int|
                    0 <= k < kept@.len() ==> refs_tag(
                        self.note_tags@,
                        #[trigger] kept@[k].id as int,
                    ),
                forall|k: int|
                    0 <= k < i && refs_tag(self.note_tags@, #[trigger] self.tags@[k].id as int)
                        ==> kept@.contains(self.tags@[k]),
                forall|k: int|
                    0 <= k < i && !refs_tag(self.note_tags@, #[trigger] self.tags@[k].id as int)
                        ==> !kept@.contains(self.tags@[k]),
                forall|k1: int, k2: int|
                    0 <= k1 < k2 < kept@.len() ==> kept@[k1].id != kept@[k2].id && kept@[k1].tag@
                        != kept@[k2].tag@,
            decreases n - i,
        {
            let referenced = self.tag_referenced(self.tags[i].id);
            let ghost pre_kept = kept@;
            if referenced {
                let t = &self.tags[i];
                let row = Tag {
                    id: t.id,
                    tag: t.tag.clone(),
                    created_at: t.created_at,
                    updated_at: t.updated_at,
                };
                assert(row == self.tags@[i as int]);
                kept.push(row);
                proof {
                    assert forall|k: int| 0 <= k < kept@.len() implies exists|w: int|
                        0 <= w < i + 1 && self.tags@[w] == #[trigger] kept@[k] by {
                        if k < pre_kept.len() {
                            assert(kept@[k] == pre_kept[k]);
                            let w = choose|w: int|
                                0 <= w < i && self.tags@[w] == #[trigger] pre_kept[k];
                            assert(self.tags@[w] == kept@[k]);
                        } else {
                            assert(self.tags@[i as int] == kept@[k]);
                        }
                    }
                    assert forall|k1: int, k2: int| 0 <= k1 < k2 < kept@.len() implies kept@[k1].id
                        != kept@[k2].id && kept@[k1].tag@ != kept@[k2].tag@ by {
                        if k2 == kept@.len() - 1 {
                            assert(kept@[k1] == pre_kept[k1]);
                            let w1 = choose|w: int|
                                0 <= w < i && self.tags@[w] == #[trigger] pre_kept[k1];
                            assert(self.tags@[w1].id != self.tags@[i as int].id);
                            assert(self.tags@[w1].tag@ != self.tags@[i as int].tag@);
                        }
                    }
                }
            }
            proof {
                assert forall|k: int|
                    0 <= k < i + 1 && refs_tag(self.note_tags@, #[trigger] self.tags@[k].id as int)
                    implies kept@.contains(self.tags@[k]) by {
                    if k < i {
                        let w = choose|w: int|
                            0 <= w < pre_kept.len() && pre_kept[w] == self.tags@[k];
                        assert(kept@[w] == self.tags@[k]);
                    } else {
                        assert(kept@[kept@.len() - 1] == self.tags@[k]);
                    }
                }
                assert forall|k: int|
                    0 <= k < i + 1 && !refs_tag(self.note_tags@, #[trigger] self.tags@[k].id as int)
                    implies !kept@.contains(self.tags@[k]) by {
                    if kept@.contains(self.tags@[k]) {
                        let w = choose|w: int| 0 <= w < kept@.len() && kept@[w] == self.tags@[k];
                        assert(refs_tag(self.note_tags@, kept@[w].id as int));
                    }
                }
            }
            i = i + 1;
        }
        let ghost pre = *self;
        self.tags = kept;
        proof {
            assert forall|k: int|
                0 <= k < self.note_tags@.len() implies has_note_id(
                self.notes@,
                #[trigger] self.note_tags@[k].note_id as int,
            ) && has_tag_id(self.tags@, self.note_tags@[k].tag_id as int) by {
                assert(has_note_id(pre.notes@, pre.note_tags@[k].note_id as int));
                assert(has_tag_id(pre.tags@, pre.note_tags@[k].tag_id as int));
                let w = choose|w: int|
                    0 <= w < pre.tags@.len() && pre.tags@[w].id == pre.note_tags@[k].tag_id;
                assert(refs_tag(pre.note_tags@, pre.tags@[w].id as int));
                assert(self.tags@.contains(pre.tags@[w]));
                let u = choose|u: int| 0 <= u < self.tags@.len() && self.tags@[u] == pre.tags@[w];
                assert(self.tags@[u].id == pre.note_tags@[k].tag_id);
            }
            assert forall|k: int| 0 <= k < self.tags@.len() implies 0 <= #[trigger] self.tags@[k].id
                < self.next_tag_id by {
                let w = choose|w: int| 0 <= w < n && pre.tags@[w] == #[trigger] self.tags@[k];
            }
            assert forall|j: int| 0 <= j < self.tags@.len() implies refs_tag(
                self.note_tags@,
                #[trigger] self.tags@[j].id as int,
            ) by {}
            assert forall|k: int| 0 <= k < self.tags@.len() implies pre.tags@.contains(
                #[trigger] self.tags@[k],
            ) by {
                let w = choose|w: int| 0 <= w < n && pre.tags@[w] == #[trigger] self.tags@[k];
                assert(pre.tags@[w] == self.tags@[k]);
            }
        }
    }

    /// The texts of the tags that a note carries, sorted lexicographically,
    /// each exactly once.
    pub fn tags_for_note(&self, note_id: i32) -> (r: Vec<String>)
        requires
            self.wf(),
        ensures
            crate::lex::sorted_texts(crate::lex::views_of(r@)),
            crate::lex::distinct_texts(crate::lex::views_of(r@)),
            forall|t: Seq<char>|
                #[trigger] crate::lex::contains_text(crate::lex::views_of(r@), t) == note_has_text(
                    self.tags@,
                    self.note_tags@,
                    note_id as int,
                    t,
                ),
    {
        let n = self.note_tags.len();
        let mut collected: Vec<String> = Vec::new();
        let mut i: usize = 0;
        while i < n
            invariant
                0 <= i <= n,
                n == self.note_tags@.len(),
                self.wf(),
                crate::lex::distinct_texts(crate::lex::views_of(collected@)),
                forall|t: Seq<char>|
                    #[trigger] crate::lex::contains_text(crate::lex::views_of(collected@), t)
                        == note_has_text(
                        self.tags@,
                        self.note_tags@.take(i as int),
                        note_id as int,
                        t,
                    ),
            decreases n - i,
        {
            let ghost pre_collected = collected@;
            let ghost a = self.note_tags@[i as int];
            if self.note_tags[i].note_id == note_id {
                let found = self.tag_index_for_id(self.note_tags[i].tag_id);
                match found {
                    Some(j) => {
                        let ghost x = self.tags@[j as int].tag@;
                        proof {
                            assert(has_tag_row(self.tags@, a.tag_id as int, x));
                            // the text cannot be collected yet: that would
                            // need a second association row for the pair
                            if crate::lex::contains_text(
                                crate::lex::views_of(pre_collected),
                                x,
                            ) {
                                let (m, j2) = choose|m: int, j2: int|
                                    0 <= m < self.note_tags@.take(i as int).len() && 0 <= j2
                                        < self.tags@.len() && self.note_tags@.take(
                                        i as int,
                                    )[m].note_id == note_id as int && self.note_tags@.take(
                                        i as int,
                                    )[m].tag_id == self.tags@[j2].id && self.tags@[j2].tag@ == x;
                                assert(self.note_tags@[m] == self.note_tags@.take(i as int)[m]);
                                assert(self.tags@[j2].tag@ == self.tags@[j as int].tag@);
                                assert(j2 == j);
                                assert(self.note_tags@[m].tag_id == self.note_tags@[i as int].tag_id);
                                assert(self.note_tags@[m].note_id == self.note_tags@[i as int].note_id);
                                assert(false);
                            }
                        }
                        collected.push(self.tags[j].tag.clone());
                        proof {
                            crate::lex::lemma_views_push(
                                pre_collected,
                                collected@[collected@.len() - 1],
                            );
                            assert(crate::lex::views_of(collected@) =~= crate::lex::views_of(
                                pre_collected,
                            ).push(x));
                            assert forall|b1: int, b2: int|
                                0 <= b1 < b2 < crate::lex::views_of(collected@).len()
                                implies crate::lex::views_of(collected@)[b1]
                                != crate::lex::views_of(collected@)[b2] by {
                                if b2 == crate::lex::views_of(collected@).len() - 1 {
                                    assert(crate::lex::views_of(collected@)[b1]
                                        == crate::lex::views_of(pre_collected)[b1]);
                                    if crate::lex::views_of(pre_collected)[b1] == x {
                                        assert(crate::lex::contains_text(
                                            crate::lex::views_of(pre_collected),
                                            x,
                                        ));
                                    }
                                }
                            }
                        }
                    },
                    None => {
                        proof {
                            assert(has_tag_id(self.tags@, a.tag_id as int));
                        }
                        // unreachable: the foreign key guarantees the row
                        assert(false);
                    },
                }
            }
            proof {
                assert(self.note_tags@.take(i + 1) =~= self.note_tags@.take(i as int).push(a));
                assert forall|t: Seq<char>|
                    #[trigger] crate::lex::contains_text(crate::lex::views_of(collected@), t)
                        == note_has_text(
                        self.tags@,
                        self.note_tags@.take(i + 1),
                        note_id as int,
                        t,
                    ) by {
                    lemma_note_has_text_push(
                        self.tags@,
                        self.note_tags@.take(i as int),
                        a,
                        note_id as int,
                        t,
                    );
                    if a.note_id == note_id {
                        crate::lex::lemma_contains_push(
                            crate::lex::views_of(pre_collected),
                            collected@[collected@.len() - 1]@,
                            t,
                        );
                        if a.note_id == note_id && has_tag_row(self.tags@, a.tag_id as int, t) {
                            // the pushed text is the text of the row for this tag
                            let j2 = choose|j2: int|
                                0 <= j2 < self.tags@.len() && self.tags@[j2].id == a.tag_id
                                    && self.tags@[j2].tag@ == t;
                            let w = choose|w: int|
                                0 <= w < self.tags@.len() && self.tags@[w].id == a.tag_id
                                    && self.tags@[w].tag@ == collected@[collected@.len() - 1]@;
                            assert(j2 == w);
                        }
                    }
                }
            }
            i = i + 1;
        }
        proof {
            assert(self.note_tags@.take(n as int) =~= self.note_tags@);
        }
        let r = crate::lex::sort_texts(&collected);
        proof {
            assert forall|t: Seq<char>|
                #[trigger] crate::lex::contains_text(crate::lex::views_of(r@), t) == note_has_text(
                    self.tags@,
                    self.note_tags@,
                    note_id as int,
                    t,
                ) by {
                assert(crate::lex::contains_text(crate::lex::views_of(r@), t)
                    == crate::lex::contains_text(crate::lex::views_of(collected@), t));
            }
        }
        r
    }

    /// The tag texts of several notes in one batch, one sorted list per
    /// asked-for note, in the order asked.
    pub fn tags_for_notes(&self, note_ids: &Vec<i32>) -> (r: Vec<Vec<String>>)
        requires
            self.wf(),
        ensures
            r@.len() == note_ids@.len(),
            forall|k: int|
                0 <= k < note_ids@.len() ==> {
                    let tags = #[trigger] r@[k];
                    &&& crate::lex::sorted_texts(crate::lex::views_of(tags@))
                    &&& crate::lex::distinct_texts(crate::lex::views_of(tags@))
                    &&& forall|t: Seq<char>|
                        #[trigger] crate::lex::contains_text(crate::lex::views_of(tags@), t)
                            == note_has_text(self.tags@, self.note_tags@, note_ids@[k] as int, t)
                },
    {
        let n = note_ids.len();
        let mut r: Vec<Vec<String>> = Vec::new();
        let mut i: usize = 0;
        while i < n
            invariant
                0 <= i <= n,
                n == note_ids@.len(),
                self.wf(),
                r@.len() == i,
                forall|k: int|
                    0 <= k < i ==> {
                        let tags = #[trigger] r@[k];
                        &&& crate::lex::sorted_texts(crate::lex::views_of(tags@))
                        &&& crate::lex::distinct_texts(crate::lex::views_of(tags@))
                        &&& forall|t: Seq<char>|
                            #[trigger] crate::lex::contains_text(crate::lex::views_of(tags@), t)
                                == note_has_text(
                                self.tags@,
                                self.note_tags@,
                                note_ids@[k] as int,
                                t,
                            )
                    },
            decreases n - i,
        {
            let tags = self.tags_for_note(note_ids[i]);
            r.push(tags);
            i = i + 1;
        }
        r
    }
}

} // verus!
