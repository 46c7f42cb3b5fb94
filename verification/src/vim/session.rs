//! One key's worth of work: the modal state, and the requests that pile up.

use vstd::prelude::*;

use crate::effect::{effects_view, emit, Effect, EffectView};
use crate::vim::state::{
    empty_register, registers_view, Mode, Register, RegisterView, Vim, VimState,
};

verus! {

/// A modal state and the requests so far.
pub struct Session {
    pub vim: VimState,
    pub out: Vec<Effect>,
}

/// What a session is.
#[verifier::ext_equal]
pub struct Step {
    pub vim: Vim,
    pub out: Seq<EffectView>,
}

impl Session {
    pub open spec fn view(&self) -> Step {
        Step { vim: self.vim@, out: effects_view(self.out@) }
    }

    /// Make a request.
    pub fn ask(&mut self, e: Effect)
        ensures
            final(self)@ == old(self)@.ask(e@),
    {
        emit(&mut self.out, e);
    }

    /// Clear what is pending.
    pub fn clear(&mut self)
        ensures
            final(self)@ == old(self)@.clear(),
    {
        self.vim.clear_pending();
    }

    /// Go to a mode.
    pub fn set_mode(&mut self, mode: Mode)
        ensures
            final(self)@ == old(self)@.in_mode(mode),
    {
        self.vim.mode = mode;
    }
}

/// A letter of the ASCII alphabet.
pub open spec fn is_letter(c: char) -> bool {
    'a' <= c <= 'z' || 'A' <= c <= 'Z'
}

/// The code of a letter in lower case.
pub open spec fn letter_code(c: char) -> u32 {
    if 'A' <= c <= 'Z' {
        (c as int + 0x20) as u32
    } else {
        c as u32
    }
}

/// The named register with a letter, empty where there is none.
pub open spec fn named(v: Vim, c: char) -> RegisterView {
    if v.registers.contains_key(letter_code(c)) {
        v.registers[letter_code(c)]
    } else {
        empty_register()
    }
}

/// What a paste takes from a register; `clip` is what the clipboard holds.
pub open spec fn register_read(v: Vim, reg: Option<char>, clip: Seq<char>) -> RegisterView {
    match reg {
        Some(c) => if c == '+' || c == '*' {
            RegisterView { text: clip, linewise: false }
        } else if c == '0' {
            v.yanked
        } else if c == '_' {
            empty_register()
        } else if is_letter(c) {
            named(v, c)
        } else {
            v.unnamed
        },
        None => v.unnamed,
    }
}

impl Step {
    pub open spec fn ask(self, e: EffectView) -> Step {
        Step { vim: self.vim, out: self.out.push(e) }
    }

    pub open spec fn clear(self) -> Step {
        Step { vim: self.vim.cleared(), out: self.out }
    }

    pub open spec fn in_mode(self, mode: Mode) -> Step {
        Step { vim: Vim { mode, ..self.vim }, out: self.out }
    }

    /// Text stored in a register. The black hole keeps nothing; the clipboard registers write the
    /// clipboard; an upper-case letter appends; a yank without a letter is kept under `"0` too.
    pub open spec fn store(
        self,
        reg: Option<char>,
        text: Seq<char>,
        linewise: bool,
        is_yank: bool,
    ) -> Step {
        let taken = RegisterView { text, linewise };
        match reg {
            Some(c) => if c == '_' {
                self
            } else if c == '+' || c == '*' {
                Step {
                    vim: Vim { unnamed: taken, ..self.vim },
                    out: self.out.push(EffectView::ClipboardWrite(text)),
                }
            } else if 'A' <= c <= 'Z' {
                let all = RegisterView { text: named(self.vim, c).text + text, linewise };
                Step {
                    vim: Vim {
                        registers: self.vim.registers.insert(letter_code(c), all),
                        unnamed: all,
                        ..self.vim
                    },
                    out: self.out,
                }
            } else if 'a' <= c <= 'z' {
                Step {
                    vim: Vim {
                        registers: self.vim.registers.insert(letter_code(c), taken),
                        unnamed: taken,
                        ..self.vim
                    },
                    out: self.out,
                }
            } else {
                self.store_unnamed(taken, is_yank)
            },
            None => self.store_unnamed(taken, is_yank),
        }
    }

    pub open spec fn store_unnamed(self, taken: RegisterView, is_yank: bool) -> Step {
        Step {
            vim: Vim {
                unnamed: taken,
                yanked: if is_yank {
                    taken
                } else {
                    self.vim.yanked
                },
                ..self.vim
            },
            out: self.out,
        }
    }
}

proof fn lemma_registers_insert(m: Map<u32, Register>, k: u32, r: Register)
    ensures
        registers_view(m.insert(k, r)) == registers_view(m).insert(k, r@),
{
    assert(registers_view(m.insert(k, r)) =~= registers_view(m).insert(k, r@));
}

fn code_of_letter(c: char) -> (r: u32)
    requires
        is_letter(c),
    ensures
        r == letter_code(c),
{
    if c >= 'A' && c <= 'Z' {
        c as u32 + 0x20
    } else {
        c as u32
    }
}

fn letter(c: char) -> (r: bool)
    ensures
        r == is_letter(c),
{
    (c >= 'a' && c <= 'z') || (c >= 'A' && c <= 'Z')
}

impl Session {
    fn keep_named(&mut self, c: char, r: Register)
        requires
            is_letter(c),
        ensures
            final(self)@ == (Step {
                vim: Vim {
                    registers: old(self)@.vim.registers.insert(letter_code(c), r@),
                    unnamed: r@,
                    ..old(self)@.vim
                },
                out: old(self)@.out,
            }),
    {
        let code: u32 = code_of_letter(c);
        self.vim.unnamed = r.copy();
        proof {
            lemma_registers_insert(self.vim.registers@, code, r);
        }
        self.vim.registers.insert(code, r);
    }

    /// Store text in a register.
    pub fn store_register(
        &mut self,
        reg: Option<char>,
        text: String,
        linewise: bool,
        is_yank: bool,
    )
        ensures
            final(self)@ == old(self)@.store(reg, text@, linewise, is_yank),
    {
        match reg {
            Some(c) => {
                if c == '_' {
                    return;
                }
                if c == '+' || c == '*' {
                    self.ask(Effect::ClipboardWrite(text.clone()));
                    self.vim.unnamed = Register { text, linewise };
                    return;
                }
                if c >= 'A' && c <= 'Z' {
                    let mut all: String = match self.vim.registers.get(&code_of_letter(c)) {
                        Some(r) => r.text.clone(),
                        None => String::new(),
                    };
                    assert(all@ =~= named(self.vim@, c).text);
                    all.push_str(text.as_str());
                    self.keep_named(c, Register { text: all, linewise });
                    return;
                }
                if c >= 'a' && c <= 'z' {
                    self.keep_named(c, Register { text, linewise });
                    return;
                }
            },
            None => {},
        }
        let taken: Register = Register { text, linewise };
        if is_yank {
            self.vim.yanked = taken.copy();
        }
        self.vim.unnamed = taken;
    }
}

/// What a paste takes from a register; `clip` is what the clipboard holds.
pub fn read_register(v: &VimState, reg: Option<char>, clip: &str) -> (r: Register)
    ensures
        r@ == register_read(v@, reg, clip@),
{
    match reg {
        Some(c) => {
            if c == '+' || c == '*' {
                Register { text: clip.to_owned(), linewise: false }
            } else if c == '0' {
                v.yanked.copy()
            } else if c == '_' {
                Register::empty()
            } else if letter(c) {
                match v.registers.get(&code_of_letter(c)) {
                    Some(r) => r.copy(),
                    None => Register::empty(),
                }
            } else {
                v.unnamed.copy()
            }
        },
        None => v.unnamed.copy(),
    }
}

/// Storing in the black hole changes nothing.
pub proof fn black_hole_keeps_nothing(s: Step, text: Seq<char>, linewise: bool, is_yank: bool)
    ensures
        s.store(Some('_'), text, linewise, is_yank) == s,
{
}

/// A delete never touches the yank register.
pub proof fn deletes_leave_the_yank_register(
    s: Step,
    reg: Option<char>,
    text: Seq<char>,
    linewise: bool,
)
    ensures
        s.store(reg, text, linewise, false).vim.yanked == s.vim.yanked,
{
}

/// What was stored under a letter is what is read from it, in either case of the letter; an
/// upper-case letter gives what was there before and the new text after it.
pub proof fn named_register_reads_back(
    s: Step,
    c: char,
    text: Seq<char>,
    linewise: bool,
    is_yank: bool,
    clip: Seq<char>,
)
    requires
        is_letter(c),
    ensures
        'a' <= c <= 'z' ==> register_read(
            s.store(Some(c), text, linewise, is_yank).vim,
            Some(c),
            clip,
        ) == (RegisterView { text, linewise }),
        'A' <= c <= 'Z' ==> register_read(
            s.store(Some(c), text, linewise, is_yank).vim,
            Some(c),
            clip,
        ) == (RegisterView {
            text: register_read(s.vim, Some(c), clip).text + text,
            linewise,
        }),
{
}

/// What was stored without a letter is what the next paste without a letter takes.
pub proof fn unnamed_register_reads_back(
    s: Step,
    text: Seq<char>,
    linewise: bool,
    is_yank: bool,
    clip: Seq<char>,
)
    ensures
        register_read(s.store(None, text, linewise, is_yank).vim, None, clip) == (RegisterView {
            text,
            linewise,
        }),
        is_yank ==> register_read(s.store(None, text, linewise, is_yank).vim, Some('0'), clip) == (
        RegisterView { text, linewise }),
{
}

} // verus!
