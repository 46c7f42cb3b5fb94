//! Content tokens: operands, operators and what is neither.

use vstd::prelude::*;

use crate::pdf::lexer::Lexer;
use crate::pdf::object::{Obj, ObjView};
use crate::pdf::syntax::{lemma_object_at, lemma_skip, lemma_word_end, object_at, skip, word_end};

verus! {

/// One token of a content stream or a character map.
pub enum Token<'a> {
    Operand(Obj),
    Word(&'a [u8]),
    /// A delimiter that starts no object.
    Junk,
    End,
}

/// What a token is.
pub enum TokenView {
    Operand(ObjView),
    Word(Seq<u8>),
    Junk,
    End,
}

impl<'a> Token<'a> {
    pub open spec fn view(&self) -> TokenView {
        match *self {
            Token::Operand(o) => TokenView::Operand(o@),
            Token::Word(w) => TokenView::Word(w@),
            Token::Junk => TokenView::Junk,
            Token::End => TokenView::End,
        }
    }
}

/// The token at `i`, and where it ends.
pub open spec fn token_at(s: Seq<u8>, i: int) -> (TokenView, int) {
    let o = object_at(s, i, 0);
    match o.0 {
        Some(v) => (TokenView::Operand(v), o.1),
        None => {
            let a = skip(s, o.1);
            let e = word_end(s, a);
            if e > a {
                (TokenView::Word(s.subrange(a, e)), e)
            } else if a >= s.len() {
                (TokenView::End, a)
            } else {
                (TokenView::Junk, a + 1)
            }
        },
    }
}

/// A token takes at least one byte, and none reaches past the end.
pub proof fn lemma_token_at(s: Seq<u8>, i: int)
    requires
        0 <= i <= s.len(),
    ensures
        i <= token_at(s, i).1 <= s.len(),
        !(token_at(s, i).0 is End) ==> i < token_at(s, i).1,
{
    lemma_object_at(s, i, 0);
    let j = object_at(s, i, 0).1;
    lemma_skip(s, j);
    lemma_word_end(s, skip(s, j));
}

/// Read the next token.
pub fn next_token<'a>(lex: &mut Lexer<'a>) -> (r: Token<'a>)
    requires
        old(lex).wf(),
    ensures
        final(lex).wf(),
        final(lex).buf == old(lex).buf,
        (r@, final(lex).pos as int) == token_at(old(lex).buf@, old(lex).pos as int),
        !(r is End) ==> final(lex).pos > old(lex).pos,
{
    proof {
        lemma_token_at(lex.buf@, lex.pos as int);
    }
    match lex.object() {
        Some(o) => Token::Operand(o),
        None => {
            match lex.keyword() {
                Some(w) => Token::Word(w),
                None => {
                    if lex.pos >= lex.buf.len() {
                        Token::End
                    } else {
                        lex.pos = lex.pos + 1;
                        Token::Junk
                    }
                },
            }
        },
    }
}

} // verus!
