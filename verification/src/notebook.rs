//! The notebook: an ordered list of notes that it alone owns.
//!
//! Titles are not deduplicated. Lookups by title (`get`, `get_mut`,
//! `edit_body`, `remove`) act on the first note, in insertion order, whose
//! title matches.

use vstd::prelude::*;
use crate::text::str_eq;

verus! {

/// The abstract value of a note: its title and its body.
pub type NoteView = (Seq<char>, Seq<char>);

/// One note. Both fields are owned strings.
#[derive(Debug)]
pub struct Entry {
    /// The title, used for lookups.
    pub title: String,
    /// The body.
    pub body: String,
}

impl View for Entry {
    type V = NoteView;

    open spec fn view(&self) -> NoteView {
        (self.title@, self.body@)
    }
}

/// A notebook: the only owner of each of its entries.
#[derive(Debug)]
pub struct Notebook {
    entries: Vec<Entry>,
}

impl View for Notebook {
    type V = Seq<NoteView>;

    closed spec fn view(&self) -> Seq<NoteView> {
        self.entries@.map_values(|e: Entry| e@)
    }
}

/// The titles of the notes, in order.
pub open spec fn titles(notes: Seq<NoteView>) -> Seq<Seq<char>> {
    notes.map_values(|n: NoteView| n.0)
}

/// The position of the first note titled `title`, if any.
pub open spec fn first_with_title(notes: Seq<NoteView>, title: Seq<char>) -> Option<int> {
    titles(notes).index_of_first(title)
}

/// The first note titled `title`, if any.
pub open spec fn lookup(notes: Seq<NoteView>, title: Seq<char>) -> Option<NoteView> {
    match first_with_title(notes, title) {
        Some(i) => Some(notes[i]),
        None => None,
    }
}

/// `i` is the position of the first note titled `title`.
pub open spec fn is_first_with_title(notes: Seq<NoteView>, title: Seq<char>, i: int) -> bool {
    &&& 0 <= i < notes.len()
    &&& notes[i].0 == title
    &&& forall|j: int| 0 <= j < i ==> notes[j].0 != title
}

/// What `first_with_title` returns, stated by quantifiers.
pub proof fn lemma_first_with_title(notes: Seq<NoteView>, title: Seq<char>)
    ensures
        match first_with_title(notes, title) {
            Some(i) => is_first_with_title(notes, title, i),
            None => forall|j: int| 0 <= j < notes.len() ==> notes[j].0 != title,
        },
{
    let ts = titles(notes);
    ts.index_of_first_ensures(title);
    match ts.index_of_first(title) {
        Some(i) => {
            assert forall|j: int| 0 <= j < i implies notes[j].0 != title by {
                assert(ts[j] == notes[j].0);
            }
        },
        None => {
            assert forall|j: int| 0 <= j < notes.len() implies notes[j].0 != title by {
                assert(ts[j] == notes[j].0);
            }
        },
    }
}

/// A position with the quantified property is the one `first_with_title` gives.
pub proof fn lemma_first_with_title_unique(notes: Seq<NoteView>, title: Seq<char>, i: int)
    requires
        is_first_with_title(notes, title, i),
    ensures
        first_with_title(notes, title) == Some(i),
{
    lemma_first_with_title(notes, title);
    match first_with_title(notes, title) {
        Some(k) => {
            if k < i {
                assert(notes[k].0 != title);
            } else if i < k {
                assert(notes[i].0 != title);
            }
        },
        None => {
            assert(notes[i].0 != title);
        },
    }
}

/// Adding a note never changes which note a lookup finds, except that a title
/// seen for the first time now finds the new note: the first note with a
/// title wins.
pub proof fn law_lookup_after_add(notes: Seq<NoteView>, title: Seq<char>, body: Seq<char>, key: Seq<char>)
    ensures
        lookup(notes.push((title, body)), key) == if key == title && lookup(notes, key) is None {
            Some((title, body))
        } else {
            lookup(notes, key)
        },
{
    let p = notes.push((title, body));
    lemma_first_with_title(notes, key);
    match first_with_title(notes, key) {
        Some(i) => {
            assert(is_first_with_title(p, key, i));
            lemma_first_with_title_unique(p, key, i);
        },
        None => {
            if key == title {
                assert(is_first_with_title(p, key, notes.len() as int));
                lemma_first_with_title_unique(p, key, notes.len() as int);
            } else {
                lemma_first_with_title(p, key);
                if let Some(k) = first_with_title(p, key) {
                    if k < notes.len() {
                        assert(p[k] == notes[k]);
                    }
                }
            }
        },
    }
}

/// Removing, by its title, a note just added under a title that was not in
/// use gives that note back and leaves the notebook as it was.
pub proof fn law_remove_undoes_add(notes: Seq<NoteView>, title: Seq<char>, body: Seq<char>)
    requires
        lookup(notes, title) is None,
    ensures
        lookup(notes.push((title, body)), title) == Some((title, body)),
        first_with_title(notes.push((title, body)), title) == Some(notes.len() as int),
        notes.push((title, body)).remove(notes.len() as int) == notes,
{
    let p = notes.push((title, body));
    lemma_first_with_title(notes, title);
    assert(is_first_with_title(p, title, notes.len() as int));
    lemma_first_with_title_unique(p, title, notes.len() as int);
    assert(p.remove(notes.len() as int) =~= notes);
}

/// After the first note titled `title` is removed, a lookup of that title
/// finds the next such note, if any.
pub proof fn law_lookup_after_remove(notes: Seq<NoteView>, title: Seq<char>, i: int)
    requires
        first_with_title(notes, title) == Some(i),
    ensures
        lookup(notes.remove(i), title) == lookup(notes.subrange(i + 1, notes.len() as int), title),
{
    lemma_first_with_title(notes, title);
    let r = notes.remove(i);
    let tail = notes.subrange(i + 1, notes.len() as int);
    lemma_first_with_title(tail, title);
    lemma_first_with_title(r, title);
    match first_with_title(tail, title) {
        Some(k) => {
            assert(r[i + k] == tail[k]);
            assert forall|j: int| 0 <= j < i + k implies r[j].0 != title by {
                if j >= i {
                    assert(r[j] == tail[j - i]);
                }
            }
            assert(is_first_with_title(r, title, i + k));
            lemma_first_with_title_unique(r, title, i + k);
        },
        None => {
            if let Some(m) = first_with_title(r, title) {
                if m >= i {
                    assert(r[m] == tail[m - i]);
                }
            }
        },
    }
}

/// After the body of the first note titled `title` is replaced, a lookup of
/// that title finds the new body, and the titles are unchanged.
pub proof fn law_lookup_after_edit(notes: Seq<NoteView>, title: Seq<char>, body: Seq<char>, i: int)
    requires
        first_with_title(notes, title) == Some(i),
    ensures
        lookup(notes.update(i, (title, body)), title) == Some((title, body)),
        titles(notes.update(i, (title, body))) == titles(notes),
{
    lemma_first_with_title(notes, title);
    let u = notes.update(i, (title, body));
    assert(is_first_with_title(u, title, i));
    lemma_first_with_title_unique(u, title, i);
    assert(titles(u) =~= titles(notes));
}

/// A lookup finds nothing exactly when no title matches.
pub proof fn law_lookup_none_iff_absent(notes: Seq<NoteView>, title: Seq<char>)
    ensures
        lookup(notes, title) is None <==> !titles(notes).contains(title),
{
    lemma_first_with_title(notes, title);
    if titles(notes).contains(title) {
        let j = choose|j: int| 0 <= j < titles(notes).len() && titles(notes)[j] == title;
        assert(notes[j].0 == title);
    }
    if let Some(i) = first_with_title(notes, title) {
        assert(titles(notes)[i] == title);
    }
}

/// Adding a note appends its title to the listing; removing one takes its
/// title out at the same place.
pub proof fn law_titles_add_remove(notes: Seq<NoteView>, note: NoteView, i: int)
    requires
        0 <= i < notes.len(),
    ensures
        titles(notes.push(note)) == titles(notes).push(note.0),
        titles(notes.remove(i)) == titles(notes).remove(i),
{
    assert(titles(notes.push(note)) =~= titles(notes).push(note.0));
    assert(titles(notes.remove(i)) =~= titles(notes).remove(i));
}

impl Notebook {
    proof fn lemma_view_index(&self, i: int)
        requires
            0 <= i < self.entries@.len(),
        ensures
            self@.len() == self.entries@.len(),
            self@[i] == self.entries@[i]@,
    {
    }

    /// An empty notebook.
    pub fn new() -> (nb: Self)
        ensures
            nb@ == Seq::<NoteView>::empty(),
    {
        let nb = Notebook { entries: Vec::new() };
        assert(nb@ =~= Seq::<NoteView>::empty());
        nb
    }

    /// The number of notes.
    pub fn len(&self) -> (n: usize)
        ensures
            n == self@.len(),
    {
        self.entries.len()
    }

    /// Whether the notebook holds no note.
    pub fn is_empty(&self) -> (b: bool)
        ensures
            b == (self@.len() == 0),
    {
        self.entries.len() == 0
    }

    /// Appends a note; both strings move into the notebook.
    pub fn add(&mut self, title: String, body: String)
        ensures
            final(self)@ == old(self)@.push((title@, body@)),
    {
        let ghost before = self@;
        self.entries.push(Entry { title, body });
        assert(self@ =~= before.push((title@, body@)));
    }

    /// The index of the first entry titled `title`.
    fn position(&self, title: &str) -> (r: Option<usize>)
        ensures
            match r {
                Some(i) => {
                    &&& i < self@.len()
                    &&& is_first_with_title(self@, title@, i as int)
                    &&& first_with_title(self@, title@) == Some(i as int)
                },
                None => first_with_title(self@, title@) is None,
            },
    {
        let n = self.entries.len();
        let mut i: usize = 0;
        while i < n
            invariant
                n == self.entries@.len(),
                n == self@.len(),
                0 <= i <= n,
                forall|j: int| 0 <= j < i ==> self@[j].0 != title@,
            decreases n - i,
        {
            proof {
                self.lemma_view_index(i as int);
            }
            if str_eq(self.entries[i].title.as_str(), title) {
                proof {
                    lemma_first_with_title_unique(self@, title@, i as int);
                }
                return Some(i);
            }
            i = i + 1;
        }
        proof {
            lemma_first_with_title(self@, title@);
        }
        None
    }

    /// Borrows the first note titled `title`; the borrow is tied to the
    /// notebook, not to the key.
    pub fn get<'a>(&'a self, title: &str) -> (r: Option<&'a Entry>)
        ensures
            match r {
                Some(e) => lookup(self@, title@) == Some(e@),
                None => lookup(self@, title@) is None,
            },
    {
        match self.position(title) {
            Some(i) => {
                proof {
                    self.lemma_view_index(i as int);
                }
                Some(&self.entries[i])
            },
            None => None,
        }
    }

    /// Mutably borrows the first note titled `title`.
    pub fn get_mut(&mut self, title: &str) -> (r: Option<&mut Entry>)
        ensures
            match r {
                Some(e) => {
                    &&& lookup(old(self)@, title@) == Some(e@)
                    &&& final(self)@ == old(self)@.update(
                        first_with_title(old(self)@, title@).unwrap(),
                        final(e)@,
                    )
                },
                None => {
                    &&& lookup(old(self)@, title@) is None
                    &&& final(self)@ == old(self)@
                },
            },
    {
        match self.position(title) {
            Some(i) => {
                proof {
                    self.lemma_view_index(i as int);
                }
                Some(&mut self.entries[i])
            },
            None => None,
        }
    }

    /// Moves `new_body` into the first note titled `title`; `true` when there
    /// was such a note, `false` (and nothing changed) otherwise.
    pub fn edit_body(&mut self, title: &str, new_body: String) -> (edited: bool)
        ensures
            edited == (lookup(old(self)@, title@) is Some),
            edited ==> final(self)@ == old(self)@.update(
                first_with_title(old(self)@, title@).unwrap(),
                (title@, new_body@),
            ),
            !edited ==> final(self)@ == old(self)@,
    {
        proof {
            lemma_first_with_title(self@, title@);
        }
        match self.get_mut(title) {
            Some(entry) => {
                entry.body = new_body;
                true
            },
            None => false,
        }
    }

    /// Borrows every title, in insertion order.
    pub fn list(&self) -> (r: Vec<&str>)
        ensures
            r@.map_values(|s: &str| s@) == titles(self@),
    {
        let n = self.entries.len();
        let mut r: Vec<&str> = Vec::new();
        let mut i: usize = 0;
        while i < n
            invariant
                n == self.entries@.len(),
                n == self@.len(),
                0 <= i <= n,
                r@.len() == i,
                forall|j: int| 0 <= j < i ==> #[trigger] r@[j]@ == self@[j].0,
            decreases n - i,
        {
            proof {
                self.lemma_view_index(i as int);
            }
            r.push(self.entries[i].title.as_str());
            i = i + 1;
        }
        assert(r@.map_values(|s: &str| s@) =~= titles(self@));
        r
    }

    /// Takes the first note titled `title` out of the notebook and hands it,
    /// owned, to the caller.
    pub fn remove(&mut self, title: &str) -> (r: Option<Entry>)
        ensures
            match r {
                Some(e) => {
                    &&& lookup(old(self)@, title@) == Some(e@)
                    &&& final(self)@ == old(self)@.remove(
                        first_with_title(old(self)@, title@).unwrap(),
                    )
                },
                None => {
                    &&& lookup(old(self)@, title@) is None
                    &&& final(self)@ == old(self)@
                },
            },
    {
        let ghost before = self@;
        match self.position(title) {
            Some(i) => {
                proof {
                    self.lemma_view_index(i as int);
                }
                let e = self.entries.remove(i);
                assert(self@ =~= before.remove(i as int));
                Some(e)
            },
            None => None,
        }
    }
}

impl Default for Notebook {
    /// The same empty notebook as `Notebook::new`.
    fn default() -> (nb: Self)
        ensures
            nb@ == Seq::<NoteView>::empty(),
    {
        Notebook::new()
    }
}

} // verus!
