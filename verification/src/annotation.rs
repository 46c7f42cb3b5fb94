//! Notes of servers on places of a document, shown between its characters.

use vstd::prelude::*;

use crate::ui::VirtualView;

verus! {

/// A note: the place on the wire, and how it is shown.
pub struct Note {
    pub line: u32,
    pub char16: u32,
    pub text: Seq<char>,
    pub style: Seq<char>,
    pub pad_left: bool,
    pub pad_right: bool,
}

/// The positions that the first `n` notes need; a note that says nothing needs none.
pub open spec fn asked(notes: Seq<Note>, n: int) -> Seq<(u32, u32)>
    decreases n,
{
    if n <= 0 {
        Seq::empty()
    } else if notes[n - 1].text.len() == 0 {
        asked(notes, n - 1)
    } else {
        asked(notes, n - 1).push((notes[n - 1].line, notes[n - 1].char16))
    }
}

/// The first `n` notes as they are shown. `at` are the positions that they need.
pub open spec fn placed(notes: Seq<Note>, at: Seq<usize>, n: int) -> Seq<VirtualView>
    decreases n,
{
    if n <= 0 {
        Seq::empty()
    } else {
        let note = notes[n - 1];
        let p = placed(notes, at, n - 1);
        if note.text.len() == 0 {
            p
        } else {
            p.push(
                VirtualView {
                    offset: at[p.len() as int] as int,
                    text: note.text,
                    style: note.style,
                    pad_left: note.pad_left,
                    pad_right: note.pad_right,
                },
            )
        }
    }
}

/// As many notes are shown as need a position.
pub proof fn lemma_counts(notes: Seq<Note>, at: Seq<usize>, i: int, n: int)
    requires
        0 <= i <= n <= notes.len(),
    ensures
        asked(notes, i).len() == placed(notes, at, i).len(),
        asked(notes, i).len() <= asked(notes, n).len(),
    decreases n,
{
    if i < n {
        lemma_counts(notes, at, i, n - 1);
    } else if n > 0 {
        lemma_counts(notes, at, n - 1, n - 1);
    }
}

/// A note that says something asks for its own place, and is shown at the position that was found for
/// that, with its own text and style; one that says nothing is passed over.
pub proof fn notes_are_shown_at_their_places(notes: Seq<Note>, at: Seq<usize>, n: int, i: int)
    requires
        0 <= i < n <= notes.len(),
        notes[i].text.len() > 0,
    ensures
        ({
            let k = asked(notes, i).len() as int;
            let v = placed(notes, at, n)[k];
            &&& k < asked(notes, n).len()
            &&& asked(notes, n)[k] == (notes[i].line, notes[i].char16)
            &&& k < placed(notes, at, n).len()
            &&& v.offset == at[k]
            &&& v.text == notes[i].text
            &&& v.style == notes[i].style
            &&& v.pad_left == notes[i].pad_left
            &&& v.pad_right == notes[i].pad_right
        }),
        placed(notes, at, n).len() == asked(notes, n).len(),
    decreases n,
{
    lemma_counts(notes, at, i, n);
    lemma_counts(notes, at, n - 1, n);
    lemma_counts(notes, at, n, n);
    if i < n - 1 {
        notes_are_shown_at_their_places(notes, at, n - 1, i);
        lemma_counts(notes, at, i + 1, n - 1);
    }
}

} // verus!
