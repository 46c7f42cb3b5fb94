//! The modal state: mode, pending command, registers, and the recording that `.` repeats.

use std::collections::HashMap;

use vstd::prelude::*;

use crate::format::{decimal, decimal_of};
use crate::key::Key;

verus! {

/// The active editing mode.
#[derive(Debug, Clone, Copy, PartialEq, Eq, Structural)]
pub enum Mode {
    Normal,
    Insert,
    Visual,
    VisualLine,
}

/// The verb that acts on the range that a motion or text object spans.
#[derive(Debug, Clone, Copy, PartialEq, Eq, Structural)]
pub enum Operator {
    Delete,
    Change,
    Yank,
    Indent,
    Outdent,
    Lower,
    Upper,
    ToggleCase,
}

/// How much of the text a motion grabs when an operator is applied over it.
#[derive(Debug, Clone, Copy, PartialEq, Eq, Structural)]
pub enum MotionKind {
    /// The landing character is not taken (`w`, `0`, `{`).
    Exclusive,
    /// The landing character is taken (`e`, `f`, `%`, `$`).
    Inclusive,
    /// Whole lines, whatever the column (`j`, `G`, `dd`).
    Linewise,
}

/// A register: text, and whether it was taken line by line.
#[derive(Debug, Clone)]
pub struct Register {
    pub text: String,
    pub linewise: bool,
}

/// A multi-key prefix that changes how the next key is read.
#[derive(Debug, Clone, Copy, PartialEq, Eq, Structural)]
pub enum Prefix {
    /// `g..`.
    G,
    /// `z..`.
    Z,
    /// A text object: the next key is the object; `around` picks `a` over `i`.
    Object { around: bool },
    /// Replace-with (`r`): the next key is the replacement.
    Replace,
    /// A register was requested with `"`: the next key names it.
    Register,
}

/// A pending character argument of the `f`/`t`/`F`/`T` family.
#[derive(Debug, Clone, Copy, PartialEq, Eq, Structural)]
pub enum FindPending {
    Find,
    Till,
    FindBack,
    TillBack,
}

/// The longest recording.
pub const MAX_RECORDING: usize = 4096;

/// The whole modal state.
pub struct VimState {
    pub mode: Mode,
    /// Count typed before the operator, or before a bare motion.
    pub count: Option<usize>,
    /// Count typed after the operator (`d2w`); multiplies with `count`.
    pub op_count: Option<usize>,
    pub operator: Option<Operator>,
    pub register: Option<char>,
    pub prefix: Option<Prefix>,
    pub find_pending: Option<FindPending>,
    /// Last `f`/`t`/`F`/`T`, for `;` and `,`.
    pub last_find: Option<(FindPending, char)>,
    /// Named registers, by the code of their lower-case letter.
    pub registers: HashMap<u32, Register>,
    /// The unnamed register: last yank or delete.
    pub unnamed: Register,
    /// The yank register `"0`, which deletes leave alone.
    pub yanked: Register,
    /// The `:` command line, while it is open.
    pub command: Option<String>,
    /// The `/` (true) or `?` (false) search line, while it is open.
    pub search: Option<(bool, String)>,
    /// The last search, for `n` and `N`.
    pub last_search: Option<(bool, String)>,
    /// Keys captured for the change being made.
    pub recording: Option<Vec<Key>>,
    /// The finished last change, which `.` presses again.
    pub last_change: Vec<Key>,
    /// Whether recorded keys are being pressed again.
    pub replaying: bool,
    /// The document's revision when the recording began.
    pub rev_at_record_start: u64,
}

/// What a register is.
pub struct RegisterView {
    pub text: Seq<char>,
    pub linewise: bool,
}

/// What the modal state is.
#[verifier::ext_equal]
pub struct Vim {
    pub mode: Mode,
    pub count: Option<usize>,
    pub op_count: Option<usize>,
    pub operator: Option<Operator>,
    pub register: Option<char>,
    pub prefix: Option<Prefix>,
    pub find_pending: Option<FindPending>,
    pub last_find: Option<(FindPending, char)>,
    pub registers: Map<u32, RegisterView>,
    pub unnamed: RegisterView,
    pub yanked: RegisterView,
    pub command: Option<Seq<char>>,
    pub search: Option<(bool, Seq<char>)>,
    pub last_search: Option<(bool, Seq<char>)>,
    pub recording: Option<Seq<Key>>,
    pub last_change: Seq<Key>,
    pub replaying: bool,
    pub rev_at_record_start: u64,
}

impl View for Register {
    type V = RegisterView;

    open spec fn view(&self) -> RegisterView {
        RegisterView { text: self.text@, linewise: self.linewise }
    }
}

pub open spec fn registers_view(m: Map<u32, Register>) -> Map<u32, RegisterView> {
    m.map_values(|r: Register| r@)
}

pub open spec fn opt_line(o: Option<String>) -> Option<Seq<char>> {
    match o {
        Some(s) => Some(s@),
        None => None,
    }
}

pub open spec fn opt_search(o: Option<(bool, String)>) -> Option<(bool, Seq<char>)> {
    match o {
        Some((f, s)) => Some((f, s@)),
        None => None,
    }
}

pub open spec fn opt_keys(o: Option<Vec<Key>>) -> Option<Seq<Key>> {
    match o {
        Some(v) => Some(v@),
        None => None,
    }
}

/// An empty register.
pub open spec fn empty_register() -> RegisterView {
    RegisterView { text: Seq::empty(), linewise: false }
}

/// The state at the start.
pub open spec fn fresh() -> Vim {
    Vim {
        mode: Mode::Normal,
        count: None,
        op_count: None,
        operator: None,
        register: None,
        prefix: None,
        find_pending: None,
        last_find: None,
        registers: Map::empty(),
        unnamed: empty_register(),
        yanked: empty_register(),
        command: None,
        search: None,
        last_search: None,
        recording: None,
        last_change: Seq::empty(),
        replaying: false,
        rev_at_record_start: 0,
    }
}

/// The product, cut down to what a `usize` holds.
pub open spec fn times(a: int, b: int) -> int {
    if a * b > usize::MAX {
        usize::MAX as int
    } else {
        a * b
    }
}

/// A number with a digit appended, cut down to what a `usize` holds.
pub open spec fn with_digit(n: int, d: int) -> usize {
    if n * 10 + d > usize::MAX {
        usize::MAX
    } else {
        (n * 10 + d) as usize
    }
}

pub open spec fn or_one(c: Option<usize>) -> int {
    match c {
        Some(n) => n as int,
        None => 1,
    }
}

pub open spec fn or_zero(c: Option<usize>) -> int {
    match c {
        Some(n) => n as int,
        None => 0,
    }
}

/// The name of an operator in the status line.
pub open spec fn operator_text(op: Operator) -> Seq<char> {
    match op {
        Operator::Delete => "d"@,
        Operator::Change => "c"@,
        Operator::Yank => "y"@,
        Operator::Indent => ">"@,
        Operator::Outdent => "<"@,
        Operator::Lower => "gu"@,
        Operator::Upper => "gU"@,
        Operator::ToggleCase => "g~"@,
    }
}

pub open spec fn count_text(c: Option<usize>) -> Seq<char> {
    match c {
        Some(n) => decimal(n as nat),
        None => Seq::empty(),
    }
}

impl Vim {
    /// The repeat count: both counts multiplied, at least one.
    pub open spec fn times(self) -> int {
        let n = times(or_one(self.count), or_one(self.op_count));
        if n < 1 {
            1
        } else {
            n
        }
    }

    /// Whether a count was typed.
    pub open spec fn counted(self) -> bool {
        self.count is Some || self.op_count is Some
    }

    /// The typed count, if there is one.
    pub open spec fn typed(self) -> Option<int> {
        if self.counted() {
            Some(self.times())
        } else {
            None
        }
    }

    /// After a digit: it goes to the count behind the operator once there is one.
    pub open spec fn digit(self, d: int) -> Vim {
        if self.operator is Some {
            Vim { op_count: Some(with_digit(or_zero(self.op_count), d)), ..self }
        } else {
            Vim { count: Some(with_digit(or_zero(self.count), d)), ..self }
        }
    }

    /// Whether a count is being typed, so that `0` extends it.
    pub open spec fn counting(self) -> bool {
        if self.operator is Some {
            self.op_count is Some
        } else {
            self.count is Some
        }
    }

    /// With nothing pending; mode, registers and recordings stay.
    pub open spec fn cleared(self) -> Vim {
        Vim {
            count: None,
            op_count: None,
            operator: None,
            register: None,
            prefix: None,
            find_pending: None,
            ..self
        }
    }

    /// Whether no command is half typed.
    pub open spec fn idle(self) -> bool {
        self.operator is None && self.prefix is None && self.find_pending is None && self.command
            is None && self.search is None && self.count is None && self.op_count is None
            && self.register is None
    }

    /// With a key added to the recording, which is begun where there is none.
    pub open spec fn recorded(self, key: Key, rev: u64) -> Vim {
        let keys = match self.recording {
            Some(k) => k,
            None => Seq::empty(),
        };
        Vim {
            recording: Some(
                if keys.len() < MAX_RECORDING {
                    keys.push(key)
                } else {
                    keys
                },
            ),
            rev_at_record_start: if self.recording is None {
                rev
            } else {
                self.rev_at_record_start
            },
            ..self
        }
    }

    /// With a recording that has come to its end kept as the last change, where the document
    /// changed, and dropped otherwise.
    pub open spec fn finalized(self, rev: u64) -> Vim {
        match self.recording {
            Some(keys) => if self.mode == Mode::Normal && self.idle() {
                Vim {
                    recording: None,
                    last_change: if rev != self.rev_at_record_start && keys.len() > 0 {
                        keys
                    } else {
                        self.last_change
                    },
                    ..self
                }
            } else {
                self
            },
            None => self,
        }
    }

    /// The pending command, as the status line shows it.
    pub open spec fn hint(self) -> Option<Seq<char>> {
        let typed = (match self.register {
            Some(r) => seq!['"', r],
            None => Seq::empty(),
        }) + count_text(self.count) + (match self.operator {
            Some(op) => operator_text(op),
            None => Seq::empty(),
        }) + count_text(self.op_count);
        match self.search {
            Some((fwd, pat)) => Some(
                seq![
                    if fwd {
                        '/'
                    } else {
                        '?'
                    },
                ] + pat,
            ),
            None => match self.command {
                Some(cmd) => Some(":"@ + cmd),
                None => if typed.len() == 0 {
                    None
                } else {
                    Some(typed)
                },
            },
        }
    }
}

impl VimState {
    /// What the state is.
    pub open spec fn view(&self) -> Vim {
        Vim {
            mode: self.mode,
            count: self.count,
            op_count: self.op_count,
            operator: self.operator,
            register: self.register,
            prefix: self.prefix,
            find_pending: self.find_pending,
            last_find: self.last_find,
            registers: registers_view(self.registers@),
            unnamed: self.unnamed@,
            yanked: self.yanked@,
            command: opt_line(self.command),
            search: opt_search(self.search),
            last_search: opt_search(self.last_search),
            recording: opt_keys(self.recording),
            last_change: self.last_change@,
            replaying: self.replaying,
            rev_at_record_start: self.rev_at_record_start,
        }
    }

    /// The state at the start.
    pub fn new() -> (r: VimState)
        ensures
            r@ == fresh(),
    {
        let r: VimState = VimState {
            mode: Mode::Normal,
            count: None,
            op_count: None,
            operator: None,
            register: None,
            prefix: None,
            find_pending: None,
            last_find: None,
            registers: HashMap::new(),
            unnamed: Register::empty(),
            yanked: Register::empty(),
            command: None,
            search: None,
            last_search: None,
            recording: None,
            last_change: Vec::new(),
            replaying: false,
            rev_at_record_start: 0,
        };
        assert(r@ =~= fresh());
        r
    }

    /// The repeat count: `count` times `op_count`, at least one. No more than a `usize` holds.
    pub fn effective_count(&self) -> (r: usize)
        ensures
            r == self@.times(),
    {
        let a: usize = match self.count {
            Some(n) => n,
            None => 1,
        };
        let b: usize = match self.op_count {
            Some(n) => n,
            None => 1,
        };
        let n: usize = match a.checked_mul(b) {
            Some(p) => p,
            None => usize::MAX,
        };
        if n < 1 {
            1
        } else {
            n
        }
    }

    /// Whether a count was typed.
    pub fn has_count(&self) -> (r: bool)
        ensures
            r == self@.counted(),
    {
        self.count.is_some() || self.op_count.is_some()
    }

    /// The typed count, if there is one.
    pub fn count_opt(&self) -> (r: Option<usize>)
        ensures
            match r {
                Some(n) => self@.typed() == Some(n as int),
                None => self@.typed() is None,
            },
    {
        if self.has_count() {
            Some(self.effective_count())
        } else {
            None
        }
    }

    /// Push a digit onto the active count.
    pub fn push_digit(&mut self, d: usize)
        ensures
            final(self)@ == old(self)@.digit(d as int),
    {
        if self.operator.is_some() {
            let n: usize = append_digit(self.op_count, d);
            self.op_count = Some(n);
        } else {
            let n: usize = append_digit(self.count, d);
            self.count = Some(n);
        }
    }

    /// Whether a count is being typed, so that `0` extends it rather than being a motion.
    pub fn count_active(&self) -> (r: bool)
        ensures
            r == self@.counting(),
    {
        if self.operator.is_some() {
            self.op_count.is_some()
        } else {
            self.count.is_some()
        }
    }

    /// Clear everything pending; mode, registers and recordings stay.
    pub fn clear_pending(&mut self)
        ensures
            final(self)@ == old(self)@.cleared(),
    {
        self.count = None;
        self.op_count = None;
        self.operator = None;
        self.register = None;
        self.prefix = None;
        self.find_pending = None;
    }

    /// Whether no command is half typed.
    pub fn is_idle(&self) -> (r: bool)
        ensures
            r == self@.idle(),
    {
        self.operator.is_none() && self.prefix.is_none() && self.find_pending.is_none()
            && self.command.is_none() && self.search.is_none() && self.count.is_none()
            && self.op_count.is_none() && self.register.is_none()
    }

    /// Append `key` to the recording; a long one is not extended.
    pub fn record_key(&mut self, key: Key, rev: u64)
        ensures
            final(self)@ == old(self)@.recorded(key, rev),
    {
        let mut keys: Vec<Key> = match self.recording.take() {
            Some(k) => k,
            None => {
                self.rev_at_record_start = rev;
                Vec::new()
            },
        };
        if keys.len() < MAX_RECORDING {
            keys.push(key);
        }
        self.recording = Some(keys);
        assert(self@ =~= old(self)@.recorded(key, rev));
    }

    /// Keep a recording as the last change once back at a clean normal state, where the document
    /// changed; else drop it.
    pub fn finalize_recording(&mut self, rev: u64)
        ensures
            final(self)@ == old(self)@.finalized(rev),
    {
        if self.recording.is_some() && self.mode == Mode::Normal && self.is_idle() {
            match self.recording.take() {
                Some(keys) => {
                    if rev != self.rev_at_record_start && keys.len() > 0 {
                        self.last_change = keys;
                    }
                },
                None => {},
            }
        }
        assert(self@ =~= old(self)@.finalized(rev));
    }

    /// The pending command for the status line, if there is one.
    pub fn pending_hint(&self) -> (r: Option<String>)
        ensures
            opt_line(r) == self@.hint(),
    {
        match &self.search {
            Some((fwd, pat)) => {
                let mut s: String = String::new();
                s.push(
                    if *fwd {
                        '/'
                    } else {
                        '?'
                    },
                );
                s.push_str(pat.as_str());
                assert(s@ =~= self@.hint().unwrap());
                return Some(s);
            },
            None => {},
        }
        match &self.command {
            Some(cmd) => {
                let mut s: String = ":".to_owned();
                s.push_str(cmd.as_str());
                return Some(s);
            },
            None => {},
        }
        let mut s: String = String::new();
        match self.register {
            Some(r) => {
                s.push('"');
                s.push(r);
            },
            None => {},
        }
        assert(s@ =~= match self.register {
            Some(r) => seq!['"', r],
            None => Seq::empty(),
        });
        let ghost a = s@;
        match self.count {
            Some(c) => {
                let t: String = decimal_of(c as u64);
                s.push_str(t.as_str());
            },
            None => {},
        }
        assert(s@ =~= a + count_text(self.count));
        let ghost b = s@;
        match self.operator {
            Some(op) => {
                s.push_str(operator_name(op));
            },
            None => {},
        }
        assert(s@ =~= b + match self.operator {
            Some(op) => operator_text(op),
            None => Seq::empty(),
        });
        let ghost c = s@;
        match self.op_count {
            Some(n) => {
                let t: String = decimal_of(n as u64);
                s.push_str(t.as_str());
            },
            None => {},
        }
        assert(s@ =~= c + count_text(self.op_count));
        if s.as_str().unicode_len() == 0 {
            None
        } else {
            Some(s)
        }
    }
}

impl Default for VimState {
    fn default() -> (r: Self)
        ensures
            r@ == fresh(),
    {
        VimState::new()
    }
}

fn operator_name(op: Operator) -> (r: &'static str)
    ensures
        r@ == operator_text(op),
{
    match op {
        Operator::Delete => "d",
        Operator::Change => "c",
        Operator::Yank => "y",
        Operator::Indent => ">",
        Operator::Outdent => "<",
        Operator::Lower => "gu",
        Operator::Upper => "gU",
        Operator::ToggleCase => "g~",
    }
}

fn append_digit(c: Option<usize>, d: usize) -> (r: usize)
    ensures
        r == with_digit(or_zero(c), d as int),
{
    let n: usize = match c {
        Some(n) => n,
        None => 0,
    };
    if n > usize::MAX / 10 {
        return usize::MAX;
    }
    let m: usize = n * 10;
    if d > usize::MAX - m {
        usize::MAX
    } else {
        m + d
    }
}

impl Register {
    /// An empty register.
    pub fn empty() -> (r: Register)
        ensures
            r@ == empty_register(),
    {
        let r: Register = Register { text: String::new(), linewise: false };
        assert(r@.text =~= Seq::empty());
        r
    }

    /// A copy of the register.
    pub fn copy(&self) -> (r: Register)
        ensures
            r@ == self@,
    {
        Register { text: self.text.clone(), linewise: self.linewise }
    }
}

impl Default for Register {
    fn default() -> (r: Self)
        ensures
            r@ == empty_register(),
    {
        Register::empty()
    }
}

/// Clearing what is pending leaves no command half typed, once the command line and the search line
/// are closed, and keeps the mode, the registers and the recordings.
pub proof fn clearing_is_idle(v: Vim)
    ensures
        v.command is None && v.search is None ==> v.cleared().idle(),
        v.cleared().mode == v.mode,
        v.cleared().registers == v.registers,
        v.cleared().unnamed == v.unnamed,
        v.cleared().yanked == v.yanked,
        v.cleared().last_change == v.last_change,
        v.cleared().recording == v.recording,
        v.cleared().cleared() == v.cleared(),
{
}

/// A finished change is what `.` presses again: keys recorded from an idle normal state become the
/// last change exactly when the document's revision moved.
pub proof fn recording_becomes_the_last_change(v: Vim, rev: u64)
    requires
        v.recording is Some,
        v.recording.unwrap().len() > 0,
        v.mode == Mode::Normal,
        v.idle(),
    ensures
        v.finalized(rev).recording is None,
        rev != v.rev_at_record_start ==> v.finalized(rev).last_change == v.recording.unwrap(),
        rev == v.rev_at_record_start ==> v.finalized(rev).last_change == v.last_change,
{
}

/// Counts typed before and after an operator multiply.
pub proof fn counts_multiply(v: Vim, a: usize, b: usize)
    requires
        v.count == Some(a),
        v.op_count == Some(b),
        a >= 1,
        b >= 1,
        a * b <= usize::MAX,
    ensures
        v.times() == a * b,
{
    assert(a * b >= 1) by (nonlinear_arith)
        requires
            a >= 1,
            b >= 1,
    ;
}

} // verus!
