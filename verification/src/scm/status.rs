//! The output of `git status --porcelain=v1 -b -z`.
//!
//! Records end with a zero byte and paths are literal, so nothing has to be unquoted.

use vstd::prelude::*;

use crate::bytes::part;
use crate::pattern::{byte_at, char_at_byte, char_from, width};
use crate::text::{after_prefix, chars_of, lossy, lossy_text, space_end, string_of, strip_start};
use vstd::utf8::{decode_utf8, valid_utf8};

verus! {

/// A changed path with its two status letters.
#[derive(Debug, PartialEq, Eq)]
pub struct ScmEntry {
    /// What is staged; a blank where nothing is.
    pub index: char,
    /// What is not staged.
    pub worktree: char,
    pub path: String,
}

pub struct EntryView {
    pub index: char,
    pub worktree: char,
    pub path: Seq<char>,
}

impl View for ScmEntry {
    type V = EntryView;

    open spec fn view(&self) -> EntryView {
        EntryView { index: self.index, worktree: self.worktree, path: self.path@ }
    }
}

pub open spec fn entries_view(v: Seq<ScmEntry>) -> Seq<EntryView> {
    v.map_values(|e: ScmEntry| e@)
}

impl EntryView {
    /// Whether anything about the path is staged.
    pub open spec fn is_staged(self) -> bool {
        self.index != ' ' && self.index != '?'
    }

    /// The two letters in words.
    pub open spec fn label(self) -> Seq<char> {
        if self.index == '?' {
            "untracked"@
        } else if self.worktree == 'M' && self.is_staged() {
            "staged + modified"@
        } else if self.index == 'M' {
            "staged"@
        } else if self.index == 'A' {
            "added"@
        } else if self.index == 'D' || self.worktree == 'D' {
            "deleted"@
        } else if self.index == 'R' {
            "renamed"@
        } else if self.worktree == 'M' {
            "modified"@
        } else {
            "changed"@
        }
    }

    pub open spec fn style(self) -> Seq<char> {
        if self.index == '?' {
            "dim"@
        } else if self.is_staged() {
            "match"@
        } else {
            "text"@
        }
    }
}

impl ScmEntry {
    /// Whether anything about the path is staged.
    pub fn is_staged(&self) -> (r: bool)
        ensures
            r == self@.is_staged(),
    {
        self.index != ' ' && self.index != '?'
    }

    /// The two letters in words.
    pub fn label(&self) -> (r: &'static str)
        ensures
            r@ == self@.label(),
    {
        if self.index == '?' {
            "untracked"
        } else if self.worktree == 'M' && self.is_staged() {
            "staged + modified"
        } else if self.index == 'M' {
            "staged"
        } else if self.index == 'A' {
            "added"
        } else if self.index == 'D' || self.worktree == 'D' {
            "deleted"
        } else if self.index == 'R' {
            "renamed"
        } else if self.worktree == 'M' {
            "modified"
        } else {
            "changed"
        }
    }

    pub fn style(&self) -> (r: &'static str)
        ensures
            r@ == self@.style(),
    {
        if self.index == '?' {
            "dim"
        } else if self.is_staged() {
            "match"
        } else {
            "text"
        }
    }
}

/// The first place at or after `i` where three dots stand, or the end.
pub open spec fn dots_at(s: Seq<char>, i: int) -> int
    decreases s.len() - i,
{
    if i >= s.len() || i + 3 > s.len() {
        s.len() as int
    } else if s[i] == '.' && s[i + 1] == '.' && s[i + 2] == '.' {
        i
    } else {
        dots_at(s, i + 1)
    }
}

/// The first whitespace at or after `i` and before `n`, or `n`.
pub open spec fn word_end(s: Seq<char>, i: int, n: int) -> int
    decreases n - i,
{
    if i >= n || crate::text::is_space(s[i]) {
        i
    } else {
        word_end(s, i + 1, n)
    }
}

/// The branch that a header names: the first word before three dots, or all of the header where
/// there is no such word.
pub open spec fn branch_of(rest: Seq<char>) -> Seq<char> {
    let cut = rest.take(dots_at(rest, 0));
    let i = space_end(cut, 0);
    if i >= cut.len() {
        rest
    } else {
        cut.subrange(i, word_end(cut, i, cut.len() as int))
    }
}

/// The text from byte `b` on; nothing where no character starts there.
pub open spec fn from_byte(s: Seq<char>, b: int) -> Seq<char> {
    let k = char_at_byte(s, b);
    if 0 <= k <= s.len() && byte_at(s, k) == b {
        s.skip(k)
    } else {
        Seq::empty()
    }
}

/// The character at a place.
pub open spec fn letter(s: Seq<char>, i: int) -> char {
    s[i]
}

/// The character at a place.
fn letter_at(cs: &Vec<char>, i: usize) -> (r: char)
    requires
        i < cs@.len(),
    ensures
        r == letter(cs@, i as int),
{
    cs[i]
}

/// What was read so far, and whether the next record is where a renamed file came from.
pub struct Status {
    pub branch: Option<Seq<char>>,
    pub entries: Seq<EntryView>,
    pub renamed: bool,
}

impl Status {
    /// One more record's text: a header names the branch; another record has two letters, a blank and
    /// a path. The record after a rename is dropped.
    pub open spec fn with_text(self, text: Seq<char>) -> Status {
        let path = from_byte(text, 3);
        if self.renamed {
            Status { renamed: false, ..self }
        } else if after_prefix(text, "## "@) is Some {
            Status { branch: Some(branch_of(after_prefix(text, "## "@).unwrap())), ..self }
        } else if text.len() < 2 || path.len() == 0 {
            self
        } else {
            Status {
                entries: self.entries.push(
                    EntryView { index: letter(text, 0), worktree: letter(text, 1), path },
                ),
                renamed: letter(text, 0) == 'R' || letter(text, 1) == 'R',
                ..self
            }
        }
    }

    /// One more record.
    pub open spec fn with(self, record: Seq<u8>) -> Status {
        self.with_text(record_text(record))
    }
}

/// The text of a record: what its bytes are the encoding of; where they are none, what is made of
/// them all the same.
pub open spec fn record_text(b: Seq<u8>) -> Seq<char> {
    if valid_utf8(b) {
        decode_utf8(b)
    } else {
        lossy(b)
    }
}

/// The next zero byte at or after `i`, or the end.
pub open spec fn zero_at(b: Seq<u8>, i: int) -> int
    decreases b.len() - i,
{
    if i >= b.len() || b[i] == 0 {
        i
    } else {
        zero_at(b, i + 1)
    }
}

/// The records from `i` on, taken in one after the other. An empty record is none.
pub open spec fn read_from(b: Seq<u8>, i: int, st: Status) -> Status
    decreases b.len() - i,
{
    let j = zero_at(b, i);
    let next = if j == i {
        st
    } else {
        st.with(b.subrange(i, j))
    };
    if i < 0 || i >= b.len() || j < i {
        st
    } else if j >= b.len() {
        next
    } else {
        read_from(b, j + 1, next)
    }
}

/// Nothing read yet.
pub open spec fn nothing_read() -> Status {
    Status { branch: None, entries: Seq::empty(), renamed: false }
}

/// What a status says.
pub open spec fn status_of(b: Seq<u8>) -> Status {
    read_from(b, 0, nothing_read())
}

/// The branch that a header names.
fn read_branch(rest: &str) -> (r: String)
    ensures
        r@ == branch_of(rest@),
{
    let cs: Vec<char> = chars_of(rest);
    let mut n: usize = 0;
    while n < cs.len() && !(cs.len() - n < 3 || (cs[n] == '.' && cs[n + 1] == '.' && cs[n + 2]
        == '.'))
        invariant
            n <= cs.len(),
            dots_at(cs@, 0) == dots_at(cs@, n as int),
        decreases cs.len() - n,
    {
        n += 1;
    }
    if cs.len() - n < 3 {
        n = cs.len();
    }
    let ghost cut = rest@.take(n as int);
    let mut i: usize = 0;
    while i < n && cs[i].is_whitespace()
        invariant
            i <= n <= cs.len(),
            cut == cs@.take(n as int),
            space_end(cut, 0) == space_end(cut, i as int),
        decreases n - i,
    {
        i += 1;
    }
    if i >= n {
        return rest.to_owned();
    }
    let mut j: usize = i;
    while j < n && !cs[j].is_whitespace()
        invariant
            i <= j <= n <= cs.len(),
            cut == cs@.take(n as int),
            word_end(cut, i as int, n as int) == word_end(cut, j as int, n as int),
        decreases n - j,
    {
        j += 1;
    }
    let r: String = string_of(cs.as_slice(), i, j);
    assert(r@ =~= cut.subrange(i as int, j as int));
    r
}

/// The text from the fourth byte on.
fn read_path(cs: &Vec<char>) -> (r: String)
    ensures
        r@ == from_byte(cs@, 3),
{
    let mut k: usize = 0;
    let mut b: usize = 0;
    while k < cs.len() && b < 3
        invariant
            k <= cs.len(),
            b == byte_at(cs@, k as int),
            b <= 6,
            char_at_byte(cs@, 3) == char_from(cs@, 3, k as int),
        decreases cs.len() - k,
    {
        let c: char = cs[k];
        let w: usize = if (c as u32) < 0x80 {
            1
        } else if (c as u32) < 0x800 {
            2
        } else if (c as u32) < 0x10000 {
            3
        } else {
            4
        };
        assert(w == width(cs@[k as int]));
        b = b + w;
        k += 1;
    }
    if b == 3 {
        let r: String = string_of(cs.as_slice(), k, cs.len());
        assert(r@ =~= cs@.skip(k as int));
        r
    } else {
        crate::text::no_text()
    }
}

pub open spec fn opt_view(s: Option<String>) -> Option<Seq<char>> {
    crate::ui::opt_text(s)
}

/// A status that is being read, record by record.
pub struct StatusReader {
    pub branch: Option<String>,
    pub entries: Vec<ScmEntry>,
    /// Whether the next record is where a renamed file came from.
    pub renamed: bool,
}

impl View for StatusReader {
    type V = Status;

    open spec fn view(&self) -> Status {
        Status {
            branch: opt_view(self.branch),
            entries: entries_view(self.entries@),
            renamed: self.renamed,
        }
    }
}

impl StatusReader {
    /// Nothing read yet.
    pub fn new() -> (r: StatusReader)
        ensures
            r@ == nothing_read(),
    {
        let r = StatusReader { branch: None, entries: Vec::new(), renamed: false };
        assert(entries_view(r.entries@) =~= Seq::empty());
        r
    }

    /// Take in the text of one record.
    pub fn take_record(&mut self, text: &str)
        ensures
            final(self)@ == old(self)@.with_text(text@),
    {
        if self.renamed {
            self.renamed = false;
            return;
        }
        match strip_start(text, "## ") {
            Some(rest) => {
                self.branch = Some(read_branch(rest.as_str()));
            },
            None => {
                let cs: Vec<char> = chars_of(text);
                let path: String = read_path(&cs);
                if cs.len() >= 2 && !path.as_str().is_empty() {
                    let index: char = letter_at(&cs, 0);
                    let worktree: char = letter_at(&cs, 1);
                    self.renamed = index == 'R' || worktree == 'R';
                    let ghost before = self.entries@;
                    self.entries.push(ScmEntry { index, worktree, path });
                    assert(entries_view(self.entries@) =~= entries_view(before).push(
                        EntryView { index, worktree, path: path@ },
                    ));
                }
            },
        }
    }
}

/// The branch and the changed paths that a status names.
pub fn parse_status(out: &[u8]) -> (r: (Option<String>, Vec<ScmEntry>))
    ensures
        opt_view(r.0) == status_of(out@).branch,
        entries_view(r.1@) == status_of(out@).entries,
{
    let mut reader: StatusReader = StatusReader::new();
    let mut i: usize = 0;
    while i < out.len()
        invariant
            i <= out.len(),
            status_of(out@) == read_from(out@, i as int, reader@),
        decreases out.len() - i,
    {
        let mut j: usize = i;
        while j < out.len() && out[j] != 0
            invariant
                i <= j <= out.len(),
                zero_at(out@, i as int) == zero_at(out@, j as int),
            decreases out.len() - j,
        {
            j += 1;
        }
        if j > i {
            let text: String = lossy_text(part(out, i, j));
            reader.take_record(text.as_str());
        }
        if j >= out.len() {
            return (reader.branch, reader.entries);
        }
        i = j + 1;
    }
    (reader.branch, reader.entries)
}

/// No output names no branch and no path: it is no clean tree.
pub proof fn no_output_is_no_status()
    ensures
        status_of(Seq::<u8>::empty()) == nothing_read(),
{
}

/// The record after a rename changes nothing but that the next one counts again.
pub proof fn the_origin_of_a_rename_is_dropped(st: Status, record: Seq<u8>, origin: Seq<u8>)
    requires
        !st.renamed,
        st.with(record).renamed,
    ensures
        st.with(record).with(origin).entries == st.with(record).entries,
        st.with(record).with(origin).branch == st.branch,
        !st.with(record).with(origin).renamed,
        st.with(record).entries.len() == st.entries.len() + 1,
{
}

proof fn lemma_dots_are(s: Seq<char>, i: int, j: int)
    requires
        0 <= i <= j,
        j + 3 <= s.len(),
        forall|k: int|
            i <= k < j ==> !((#[trigger] s[k]) == '.' && s[k + 1] == '.' && s[k + 2] == '.'),
        s[j] == '.' && s[j + 1] == '.' && s[j + 2] == '.',
    ensures
        dots_at(s, i) == j,
    decreases j - i,
{
    if i < j {
        assert(!(s[i] == '.' && s[i + 1] == '.' && s[i + 2] == '.'));
        lemma_dots_are(s, i + 1, j);
    }
}

proof fn lemma_word_is(s: Seq<char>, i: int, n: int)
    requires
        0 <= i <= n <= s.len(),
        forall|k: int| i <= k < n ==> !crate::text::is_space(#[trigger] s[k]),
    ensures
        word_end(s, i, n) == n,
    decreases n - i,
{
    if i < n {
        assert(!crate::text::is_space(s[i]));
        lemma_word_is(s, i + 1, n);
    }
}

/// A header's branch is what stands before the three dots: not what it follows, nor what comes behind.
pub proof fn a_header_names_the_branch(st: Status, name: Seq<char>, rest: Seq<char>)
    requires
        !st.renamed,
        name.len() > 0,
        name.last() != '.',
        forall|k: int| 0 <= k < name.len() ==> !crate::text::is_space(#[trigger] name[k]),
        forall|k: int|
            0 <= k < name.len() - 2 ==> !((#[trigger] name[k]) == '.' && name[k + 1] == '.' && name[k
                + 2] == '.'),
    ensures
        ({
            let header = seq!['#', '#', ' '] + (name + seq!['.', '.', '.'] + rest);
            let r = st.with_text(header);
            r.branch == Some(name) && r.entries == st.entries && !r.renamed
        }),
{
    let told = name + seq!['.', '.', '.'] + rest;
    let header = seq!['#', '#', ' '] + told;
    reveal_strlit("## ");
    assert("## "@ =~= seq!['#', '#', ' ']);
    assert(header.take(3) =~= "## "@);
    assert(header.subrange(0, 3) =~= "## "@);
    assert(header.skip(3) =~= told);
    let n = name.len() as int;
    assert forall|k: int| 0 <= k < n implies !((#[trigger] told[k]) == '.' && told[k + 1] == '.'
        && told[k + 2] == '.') by {
        assert(told[k] == name[k]);
        if k + 2 < n {
            assert(told[k + 1] == name[k + 1] && told[k + 2] == name[k + 2]);
        } else {
            assert(told[n - 1] == name.last());
        }
    }
    assert(told[n] == '.' && told[n + 1] == '.' && told[n + 2] == '.');
    lemma_dots_are(told, 0, n);
    assert(told.take(n) =~= name);
    assert(!crate::text::is_space(name[0]));
    lemma_word_is(name, 0, n);
    assert(name.subrange(0, n) =~= name);
}

/// A record of two letters, a blank and a path is an entry with those letters and that path, behind the
/// entries before it. Another record follows a rename.
pub proof fn a_record_is_an_entry(st: Status, index: char, worktree: char, path: Seq<char>)
    requires
        !st.renamed,
        (index as u32) < 0x80,
        (worktree as u32) < 0x80,
        index != '#',
        path.len() > 0,
    ensures
        ({
            let r = st.with_text(seq![index, worktree, ' '] + path);
            &&& r.branch == st.branch
            &&& r.entries == st.entries.push(EntryView { index, worktree, path })
            &&& r.renamed == (index == 'R' || worktree == 'R')
        }),
{
    let text = seq![index, worktree, ' '] + path;
    reveal_strlit("## ");
    assert(text[0] == index);
    assert(text.take(3)[0] == index);
    assert(text.subrange(0, 3)[0] == index);
    assert("## "@[0] == '#');
    assert(text[1] == worktree && text[2] == ' ');
    reveal_with_fuel(byte_at, 4);
    assert(byte_at(text, 3) == 3);
    crate::pattern::lemma_char_at_boundary(text, 3, 0);
    assert(text.skip(3) =~= path);
}

proof fn lemma_zero_is(b: Seq<u8>, i: int, j: int)
    requires
        0 <= i <= j <= b.len(),
        forall|k: int| i <= k < j ==> (#[trigger] b[k]) != 0,
        j == b.len() || b[j] == 0,
    ensures
        zero_at(b, i) == j,
    decreases j - i,
{
    if i < j {
        assert(b[i] != 0);
        lemma_zero_is(b, i + 1, j);
    }
}

proof fn lemma_zero_at(b: Seq<u8>, i: int)
    requires
        0 <= i <= b.len(),
    ensures
        i <= zero_at(b, i) <= b.len(),
        forall|k: int| i <= k < zero_at(b, i) ==> (#[trigger] b[k]) != 0,
        zero_at(b, i) < b.len() ==> b[zero_at(b, i)] == 0,
    decreases b.len() - i,
{
    if i < b.len() && b[i] != 0 {
        lemma_zero_at(b, i + 1);
    }
}

proof fn lemma_read_from(b: Seq<u8>, i: int, st: Status)
    requires
        0 <= i <= b.len(),
    ensures
        read_from(b, i, st) == read_from(b.skip(i), 0, st),
    decreases b.len() - i,
{
    let t = b.skip(i);
    let j = zero_at(b, i);
    lemma_zero_at(b, i);
    assert forall|k: int| 0 <= k < j - i implies (#[trigger] t[k]) != 0 by {
        assert(t[k] == b[i + k]);
    }
    lemma_zero_is(t, 0, j - i);
    assert(t.subrange(0, j - i) =~= b.subrange(i, j));
    if j < b.len() {
        let next = if j == i {
            st
        } else {
            st.with(b.subrange(i, j))
        };
        lemma_read_from(b, j + 1, next);
        assert(t.skip(j - i + 1) =~= b.skip(j + 1));
        if i > 0 {
            lemma_read_from(t, j - i + 1, next);
        } else {
            assert(t =~= b);
        }
    }
}

/// A status is read record by record: what stands before a zero byte is taken in first, then what stands
/// behind it.
pub proof fn records_end_at_zero_bytes(st: Status, record: Seq<u8>, rest: Seq<u8>)
    requires
        record.len() > 0,
        !record.contains(0u8),
    ensures
        read_from(record + seq![0u8] + rest, 0, st) == read_from(rest, 0, st.with(record)),
        read_from(seq![0u8] + rest, 0, st) == read_from(rest, 0, st),
{
    let n = record.len() as int;
    let b = record + seq![0u8] + rest;
    assert forall|k: int| 0 <= k < n implies (#[trigger] b[k]) != 0 by {
        assert(b[k] == record[k]);
        assert(record.contains(record[k]));
    }
    assert(b[n] == 0);
    lemma_zero_is(b, 0, n);
    assert(b.subrange(0, n) =~= record);
    lemma_read_from(b, n + 1, st.with(record));
    assert(b.skip(n + 1) =~= rest);
    let z = seq![0u8] + rest;
    assert(z[0] == 0);
    lemma_zero_is(z, 0, 0);
    lemma_read_from(z, 1, st);
    assert(z.skip(1) =~= rest);
}

/// What a label says: a path that is not followed is untracked; one with a staged change is added,
/// deleted, renamed or staged by the letter of that change, and both where it was modified since; one
/// without is deleted or modified by the other letter.
pub proof fn labels_say_what_changed(path: Seq<char>, w: char)
    requires
        w != 'M',
    ensures
        ({
            let say = |index: char, worktree: char| (EntryView { index, worktree, path }).label();
            &&& say('?', w) == "untracked"@
            &&& say('M', w) == "staged"@
            &&& say('A', w) == "added"@
            &&& say('D', w) == "deleted"@
            &&& w != 'D' ==> say('R', w) == "renamed"@
            &&& say('M', 'M') == "staged + modified"@
            &&& say('A', 'M') == "staged + modified"@
            &&& say('R', 'M') == "staged + modified"@
            &&& say(' ', 'M') == "modified"@
            &&& say(' ', 'D') == "deleted"@
        }),
        !(EntryView { index: ' ', worktree: w, path }).is_staged(),
        !(EntryView { index: '?', worktree: w, path }).is_staged(),
        forall|i: char|
            i != ' ' && i != '?' ==> #[trigger] (EntryView { index: i, worktree: w, path }).is_staged(),
{
}

} // verus!
