//! Which part of the state machine each key reaches.

use vstd::prelude::*;

use crate::doc::Doc;
use crate::key::{Key, KeyCode};
use crate::vim::motion::{Answer, TextObject};
use crate::vim::normal::{find_of, object_named};
use crate::vim::plugin::{is_dot, pressed};
use crate::vim::session::Step;
use crate::vim::state::{FindPending, Mode, Operator, Prefix, Vim};

verus! {

/// A character's key.
pub open spec fn key_of(c: char) -> Key {
    Key { code: KeyCode::Char(c), ctrl: false, alt: false, shift: false }
}

/// After a character's key.
pub open spec fn hit(v: Vim, d: &Doc, c: char, page: int, answer: &Answer) -> Step {
    pressed(v, Some(d), key_of(c), page, answer).0
}

/// Normal mode with nothing pending but a count and a register.
pub open spec fn quiet(v: Vim) -> bool {
    &&& v.mode == Mode::Normal
    &&& v.operator is None
    &&& v.op_count is None
    &&& v.prefix is None
    &&& v.find_pending is None
    &&& v.command is None
    &&& v.search is None
}

/// Normal mode with an operator pending, and counts and a register.
pub open spec fn armed(v: Vim, op: Operator) -> bool {
    &&& v.mode == Mode::Normal
    &&& v.operator == Some(op)
    &&& v.prefix is None
    &&& v.find_pending is None
    &&& v.command is None
    &&& v.search is None
}

/// A state but for what was recorded of the keys.
pub open spec fn plain(v: Vim) -> Vim {
    Vim { recording: None, rev_at_record_start: 0, ..v }
}

/// Where a key starts from: the state with the key recorded, and no requests.
pub open spec fn begun(v: Vim, d: &Doc, c: char) -> Step {
    Step {
        vim: if v.replaying {
            v
        } else if is_dot(v, key_of(c)) {
            Vim { recording: None, ..v }
        } else {
            v.recorded(key_of(c), d.revision)
        },
        out: Seq::empty(),
    }
}

pub proof fn lemma_idle(v: Vim, d: &Doc, c: char, page: int, answer: &Answer)
    requires
        quiet(v),
    ensures
        hit(v, d, c, page, answer) == begun(v, d, c).idle_key(Some(d), key_of(c), page, answer),
        plain(begun(v, d, c).vim) == plain(v),
{
    reveal(Step::normal_key);
}

pub proof fn lemma_armed(v: Vim, d: &Doc, c: char, page: int, answer: &Answer, op: Operator)
    requires
        armed(v, op),
    ensures
        hit(v, d, c, page, answer) == begun(v, d, c).operator_key(
            Some(d),
            op,
            key_of(c),
            page,
            answer,
        ),
        plain(begun(v, d, c).vim) == plain(v),
{
    reveal(Step::normal_key);
}

pub proof fn lemma_prefixed(v: Vim, d: &Doc, c: char, page: int, answer: &Answer, p: Prefix)
    requires
        v.mode == Mode::Normal,
        v.prefix == Some(p),
        v.find_pending is None,
        v.command is None,
        v.search is None,
    ensures
        hit(v, d, c, page, answer) == begun(v, d, c).prefix_key(
            Some(d),
            p,
            key_of(c),
            page,
            answer,
        ),
        plain(begun(v, d, c).vim) == plain(v),
{
    reveal(Step::normal_key);
}


proof fn lemma_keys(s: Step, d: &Doc, c: char, page: int, answer: &Answer)
    ensures
        c == 'x' ==> s.idle_key(Some(d), key_of(c), page, answer) == s.delete_char(Some(d), true),
        c == 'X' ==> s.idle_key(Some(d), key_of(c), page, answer) == s.delete_char(Some(d), false),
        c == 'D' ==> s.idle_key(Some(d), key_of(c), page, answer) == s.to_line_end(Some(d), Operator::Delete),
        c == 'C' ==> s.idle_key(Some(d), key_of(c), page, answer) == s.to_line_end(Some(d), Operator::Change),
        c == 'i' ==> s.idle_key(Some(d), key_of(c), page, answer) == s.insert_at(Some(d), None),
        c == 'a' ==> s.idle_key(Some(d), key_of(c), page, answer) == s.insert_at(Some(d), Some(1)),
        c == 'I' ==> s.idle_key(Some(d), key_of(c), page, answer) == s.insert_first_non_blank(Some(d)),
        c == 'A' ==> s.idle_key(Some(d), key_of(c), page, answer) == s.insert_line_end(Some(d)),
        c == 'o' ==> s.idle_key(Some(d), key_of(c), page, answer) == s.open_line(Some(d), true),
        c == 'O' ==> s.idle_key(Some(d), key_of(c), page, answer) == s.open_line(Some(d), false),
        c == 's' ==> s.idle_key(Some(d), key_of(c), page, answer) == s.substitute(Some(d)),
        c == 'S' ==> s.idle_key(Some(d), key_of(c), page, answer) == s.change_lines(Some(d)),
        c == '~' ==> s.idle_key(Some(d), key_of(c), page, answer) == s.toggle_case(Some(d)),
        c == 'J' ==> s.idle_key(Some(d), key_of(c), page, answer) == s.join_lines(),
        c == 'p' ==> s.idle_key(Some(d), key_of(c), page, answer) == s.paste(Some(d), false, answer.text@),
        c == 'P' ==> s.idle_key(Some(d), key_of(c), page, answer) == s.paste(Some(d), true, answer.text@),
        c == 'u' ==> s.idle_key(Some(d), key_of(c), page, answer) == s.repeat_command("edit.undo"@),
        c == '.' ==> s.idle_key(Some(d), key_of(c), page, answer) == s.dot(),
        c == 'v' ==> s.idle_key(Some(d), key_of(c), page, answer) == s.enter_visual(Some(d), Mode::Visual),
        c == 'V' ==> s.idle_key(Some(d), key_of(c), page, answer) == s.enter_visual(Some(d), Mode::VisualLine),
        c == ':' ==> s.idle_key(Some(d), key_of(c), page, answer) == s.open_command(),
        c == '/' ==> s.idle_key(Some(d), key_of(c), page, answer) == s.open_search(true),
        c == '?' ==> s.idle_key(Some(d), key_of(c), page, answer) == s.open_search(false),
        c == 'n' ==> s.idle_key(Some(d), key_of(c), page, answer) == s.search_next(Some(d), false),
        c == 'N' ==> s.idle_key(Some(d), key_of(c), page, answer) == s.search_next(Some(d), true),
        c == '*' ==> s.idle_key(Some(d), key_of(c), page, answer) == s.search_word(Some(d), true, answer.range),
        c == '#' ==> s.idle_key(Some(d), key_of(c), page, answer) == s.search_word(Some(d), false, answer.range),
        c == 'j' ==> s.idle_key(Some(d), key_of(c), page, answer) == s.by_lines(true, false),
        c == 'k' ==> s.idle_key(Some(d), key_of(c), page, answer) == s.by_lines(false, false),
        c == 'g' ==> s.idle_key(Some(d), key_of(c), page, answer) == s.with_prefix(Prefix::G),
        c == 'z' ==> s.idle_key(Some(d), key_of(c), page, answer) == s.with_prefix(Prefix::Z),
        c == 'r' ==> s.idle_key(Some(d), key_of(c), page, answer) == s.with_prefix(Prefix::Replace),
        c == '"' ==> s.idle_key(Some(d), key_of(c), page, answer) == s.with_prefix(Prefix::Register),
        c == ';' ==> s.idle_key(Some(d), key_of(c), page, answer) == s.find_again(Some(d), false, answer.pos),
        c == ',' ==> s.idle_key(Some(d), key_of(c), page, answer) == s.find_again(Some(d), true, answer.pos),
        c == 'f' ==> s.idle_key(Some(d), key_of(c), page, answer) == s.with_find(FindPending::Find),
        c == 'F' ==> s.idle_key(Some(d), key_of(c), page, answer) == s.with_find(FindPending::FindBack),
        c == 't' ==> s.idle_key(Some(d), key_of(c), page, answer) == s.with_find(FindPending::Till),
        c == 'T' ==> s.idle_key(Some(d), key_of(c), page, answer) == s.with_find(FindPending::TillBack),
        c == 'd' ==> s.idle_key(Some(d), key_of(c), page, answer) == s.with_operator(Operator::Delete),
        c == 'c' ==> s.idle_key(Some(d), key_of(c), page, answer) == s.with_operator(Operator::Change),
        c == 'y' ==> s.idle_key(Some(d), key_of(c), page, answer) == s.with_operator(Operator::Yank),
        c == '>' ==> s.idle_key(Some(d), key_of(c), page, answer) == s.with_operator(Operator::Indent),
        c == '<' ==> s.idle_key(Some(d), key_of(c), page, answer) == s.with_operator(Operator::Outdent),
{
    reveal(Step::idle_key);
}

pub proof fn lemma_x(v: Vim, d: &Doc, page: int, answer: &Answer)
    requires
        quiet(v),
    ensures
        hit(v, d, 'x', page, answer) == begun(v, d, 'x').delete_char(Some(d), true),
        plain(begun(v, d, 'x').vim) == plain(v),
{
    lemma_idle(v, d, 'x', page, answer);
    lemma_keys(begun(v, d, 'x'), d, 'x', page, answer);
}

pub proof fn lemma_upper_x(v: Vim, d: &Doc, page: int, answer: &Answer)
    requires
        quiet(v),
    ensures
        hit(v, d, 'X', page, answer) == begun(v, d, 'X').delete_char(Some(d), false),
        plain(begun(v, d, 'X').vim) == plain(v),
{
    lemma_idle(v, d, 'X', page, answer);
    lemma_keys(begun(v, d, 'X'), d, 'X', page, answer);
}

pub proof fn lemma_upper_d(v: Vim, d: &Doc, page: int, answer: &Answer)
    requires
        quiet(v),
    ensures
        hit(v, d, 'D', page, answer) == begun(v, d, 'D').to_line_end(Some(d), Operator::Delete),
        plain(begun(v, d, 'D').vim) == plain(v),
{
    lemma_idle(v, d, 'D', page, answer);
    lemma_keys(begun(v, d, 'D'), d, 'D', page, answer);
}

pub proof fn lemma_upper_c(v: Vim, d: &Doc, page: int, answer: &Answer)
    requires
        quiet(v),
    ensures
        hit(v, d, 'C', page, answer) == begun(v, d, 'C').to_line_end(Some(d), Operator::Change),
        plain(begun(v, d, 'C').vim) == plain(v),
{
    lemma_idle(v, d, 'C', page, answer);
    lemma_keys(begun(v, d, 'C'), d, 'C', page, answer);
}

pub proof fn lemma_i(v: Vim, d: &Doc, page: int, answer: &Answer)
    requires
        quiet(v),
    ensures
        hit(v, d, 'i', page, answer) == begun(v, d, 'i').insert_at(Some(d), None),
        plain(begun(v, d, 'i').vim) == plain(v),
{
    lemma_idle(v, d, 'i', page, answer);
    lemma_keys(begun(v, d, 'i'), d, 'i', page, answer);
}

pub proof fn lemma_a(v: Vim, d: &Doc, page: int, answer: &Answer)
    requires
        quiet(v),
    ensures
        hit(v, d, 'a', page, answer) == begun(v, d, 'a').insert_at(Some(d), Some(1)),
        plain(begun(v, d, 'a').vim) == plain(v),
{
    lemma_idle(v, d, 'a', page, answer);
    lemma_keys(begun(v, d, 'a'), d, 'a', page, answer);
}

pub proof fn lemma_upper_i(v: Vim, d: &Doc, page: int, answer: &Answer)
    requires
        quiet(v),
    ensures
        hit(v, d, 'I', page, answer) == begun(v, d, 'I').insert_first_non_blank(Some(d)),
        plain(begun(v, d, 'I').vim) == plain(v),
{
    lemma_idle(v, d, 'I', page, answer);
    lemma_keys(begun(v, d, 'I'), d, 'I', page, answer);
}

pub proof fn lemma_upper_a(v: Vim, d: &Doc, page: int, answer: &Answer)
    requires
        quiet(v),
    ensures
        hit(v, d, 'A', page, answer) == begun(v, d, 'A').insert_line_end(Some(d)),
        plain(begun(v, d, 'A').vim) == plain(v),
{
    lemma_idle(v, d, 'A', page, answer);
    lemma_keys(begun(v, d, 'A'), d, 'A', page, answer);
}

pub proof fn lemma_o(v: Vim, d: &Doc, page: int, answer: &Answer)
    requires
        quiet(v),
    ensures
        hit(v, d, 'o', page, answer) == begun(v, d, 'o').open_line(Some(d), true),
        plain(begun(v, d, 'o').vim) == plain(v),
{
    lemma_idle(v, d, 'o', page, answer);
    lemma_keys(begun(v, d, 'o'), d, 'o', page, answer);
}

pub proof fn lemma_upper_o(v: Vim, d: &Doc, page: int, answer: &Answer)
    requires
        quiet(v),
    ensures
        hit(v, d, 'O', page, answer) == begun(v, d, 'O').open_line(Some(d), false),
        plain(begun(v, d, 'O').vim) == plain(v),
{
    lemma_idle(v, d, 'O', page, answer);
    lemma_keys(begun(v, d, 'O'), d, 'O', page, answer);
}

pub proof fn lemma_s(v: Vim, d: &Doc, page: int, answer: &Answer)
    requires
        quiet(v),
    ensures
        hit(v, d, 's', page, answer) == begun(v, d, 's').substitute(Some(d)),
        plain(begun(v, d, 's').vim) == plain(v),
{
    lemma_idle(v, d, 's', page, answer);
    lemma_keys(begun(v, d, 's'), d, 's', page, answer);
}

pub proof fn lemma_upper_s(v: Vim, d: &Doc, page: int, answer: &Answer)
    requires
        quiet(v),
    ensures
        hit(v, d, 'S', page, answer) == begun(v, d, 'S').change_lines(Some(d)),
        plain(begun(v, d, 'S').vim) == plain(v),
{
    lemma_idle(v, d, 'S', page, answer);
    lemma_keys(begun(v, d, 'S'), d, 'S', page, answer);
}

pub proof fn lemma_tilde(v: Vim, d: &Doc, page: int, answer: &Answer)
    requires
        quiet(v),
    ensures
        hit(v, d, '~', page, answer) == begun(v, d, '~').toggle_case(Some(d)),
        plain(begun(v, d, '~').vim) == plain(v),
{
    lemma_idle(v, d, '~', page, answer);
    lemma_keys(begun(v, d, '~'), d, '~', page, answer);
}

pub proof fn lemma_upper_j(v: Vim, d: &Doc, page: int, answer: &Answer)
    requires
        quiet(v),
    ensures
        hit(v, d, 'J', page, answer) == begun(v, d, 'J').join_lines(),
        plain(begun(v, d, 'J').vim) == plain(v),
{
    lemma_idle(v, d, 'J', page, answer);
    lemma_keys(begun(v, d, 'J'), d, 'J', page, answer);
}

pub proof fn lemma_p(v: Vim, d: &Doc, page: int, answer: &Answer)
    requires
        quiet(v),
    ensures
        hit(v, d, 'p', page, answer) == begun(v, d, 'p').paste(Some(d), false, answer.text@),
        plain(begun(v, d, 'p').vim) == plain(v),
{
    lemma_idle(v, d, 'p', page, answer);
    lemma_keys(begun(v, d, 'p'), d, 'p', page, answer);
}

pub proof fn lemma_upper_p(v: Vim, d: &Doc, page: int, answer: &Answer)
    requires
        quiet(v),
    ensures
        hit(v, d, 'P', page, answer) == begun(v, d, 'P').paste(Some(d), true, answer.text@),
        plain(begun(v, d, 'P').vim) == plain(v),
{
    lemma_idle(v, d, 'P', page, answer);
    lemma_keys(begun(v, d, 'P'), d, 'P', page, answer);
}

pub proof fn lemma_u(v: Vim, d: &Doc, page: int, answer: &Answer)
    requires
        quiet(v),
    ensures
        hit(v, d, 'u', page, answer) == begun(v, d, 'u').repeat_command("edit.undo"@),
        plain(begun(v, d, 'u').vim) == plain(v),
{
    lemma_idle(v, d, 'u', page, answer);
    lemma_keys(begun(v, d, 'u'), d, 'u', page, answer);
}

pub proof fn lemma_dot(v: Vim, d: &Doc, page: int, answer: &Answer)
    requires
        quiet(v),
    ensures
        hit(v, d, '.', page, answer) == begun(v, d, '.').dot(),
        plain(begun(v, d, '.').vim) == plain(v),
{
    lemma_idle(v, d, '.', page, answer);
    lemma_keys(begun(v, d, '.'), d, '.', page, answer);
}

pub proof fn lemma_v(v: Vim, d: &Doc, page: int, answer: &Answer)
    requires
        quiet(v),
    ensures
        hit(v, d, 'v', page, answer) == begun(v, d, 'v').enter_visual(Some(d), Mode::Visual),
        plain(begun(v, d, 'v').vim) == plain(v),
{
    lemma_idle(v, d, 'v', page, answer);
    lemma_keys(begun(v, d, 'v'), d, 'v', page, answer);
}

pub proof fn lemma_upper_v(v: Vim, d: &Doc, page: int, answer: &Answer)
    requires
        quiet(v),
    ensures
        hit(v, d, 'V', page, answer) == begun(v, d, 'V').enter_visual(Some(d), Mode::VisualLine),
        plain(begun(v, d, 'V').vim) == plain(v),
{
    lemma_idle(v, d, 'V', page, answer);
    lemma_keys(begun(v, d, 'V'), d, 'V', page, answer);
}

pub proof fn lemma_colon(v: Vim, d: &Doc, page: int, answer: &Answer)
    requires
        quiet(v),
    ensures
        hit(v, d, ':', page, answer) == begun(v, d, ':').open_command(),
        plain(begun(v, d, ':').vim) == plain(v),
{
    lemma_idle(v, d, ':', page, answer);
    lemma_keys(begun(v, d, ':'), d, ':', page, answer);
}

pub proof fn lemma_slash(v: Vim, d: &Doc, page: int, answer: &Answer)
    requires
        quiet(v),
    ensures
        hit(v, d, '/', page, answer) == begun(v, d, '/').open_search(true),
        plain(begun(v, d, '/').vim) == plain(v),
{
    lemma_idle(v, d, '/', page, answer);
    lemma_keys(begun(v, d, '/'), d, '/', page, answer);
}

pub proof fn lemma_question(v: Vim, d: &Doc, page: int, answer: &Answer)
    requires
        quiet(v),
    ensures
        hit(v, d, '?', page, answer) == begun(v, d, '?').open_search(false),
        plain(begun(v, d, '?').vim) == plain(v),
{
    lemma_idle(v, d, '?', page, answer);
    lemma_keys(begun(v, d, '?'), d, '?', page, answer);
}

pub proof fn lemma_n(v: Vim, d: &Doc, page: int, answer: &Answer)
    requires
        quiet(v),
    ensures
        hit(v, d, 'n', page, answer) == begun(v, d, 'n').search_next(Some(d), false),
        plain(begun(v, d, 'n').vim) == plain(v),
{
    lemma_idle(v, d, 'n', page, answer);
    lemma_keys(begun(v, d, 'n'), d, 'n', page, answer);
}

pub proof fn lemma_upper_n(v: Vim, d: &Doc, page: int, answer: &Answer)
    requires
        quiet(v),
    ensures
        hit(v, d, 'N', page, answer) == begun(v, d, 'N').search_next(Some(d), true),
        plain(begun(v, d, 'N').vim) == plain(v),
{
    lemma_idle(v, d, 'N', page, answer);
    lemma_keys(begun(v, d, 'N'), d, 'N', page, answer);
}

pub proof fn lemma_star(v: Vim, d: &Doc, page: int, answer: &Answer)
    requires
        quiet(v),
    ensures
        hit(v, d, '*', page, answer) == begun(v, d, '*').search_word(Some(d), true, answer.range),
        plain(begun(v, d, '*').vim) == plain(v),
{
    lemma_idle(v, d, '*', page, answer);
    lemma_keys(begun(v, d, '*'), d, '*', page, answer);
}

pub proof fn lemma_hash(v: Vim, d: &Doc, page: int, answer: &Answer)
    requires
        quiet(v),
    ensures
        hit(v, d, '#', page, answer) == begun(v, d, '#').search_word(Some(d), false, answer.range),
        plain(begun(v, d, '#').vim) == plain(v),
{
    lemma_idle(v, d, '#', page, answer);
    lemma_keys(begun(v, d, '#'), d, '#', page, answer);
}

pub proof fn lemma_j(v: Vim, d: &Doc, page: int, answer: &Answer)
    requires
        quiet(v),
    ensures
        hit(v, d, 'j', page, answer) == begun(v, d, 'j').by_lines(true, false),
        plain(begun(v, d, 'j').vim) == plain(v),
{
    lemma_idle(v, d, 'j', page, answer);
    lemma_keys(begun(v, d, 'j'), d, 'j', page, answer);
}

pub proof fn lemma_k(v: Vim, d: &Doc, page: int, answer: &Answer)
    requires
        quiet(v),
    ensures
        hit(v, d, 'k', page, answer) == begun(v, d, 'k').by_lines(false, false),
        plain(begun(v, d, 'k').vim) == plain(v),
{
    lemma_idle(v, d, 'k', page, answer);
    lemma_keys(begun(v, d, 'k'), d, 'k', page, answer);
}

pub proof fn lemma_g(v: Vim, d: &Doc, page: int, answer: &Answer)
    requires
        quiet(v),
    ensures
        hit(v, d, 'g', page, answer) == begun(v, d, 'g').with_prefix(Prefix::G),
        plain(begun(v, d, 'g').vim) == plain(v),
{
    lemma_idle(v, d, 'g', page, answer);
    lemma_keys(begun(v, d, 'g'), d, 'g', page, answer);
}

pub proof fn lemma_z(v: Vim, d: &Doc, page: int, answer: &Answer)
    requires
        quiet(v),
    ensures
        hit(v, d, 'z', page, answer) == begun(v, d, 'z').with_prefix(Prefix::Z),
        plain(begun(v, d, 'z').vim) == plain(v),
{
    lemma_idle(v, d, 'z', page, answer);
    lemma_keys(begun(v, d, 'z'), d, 'z', page, answer);
}

pub proof fn lemma_r(v: Vim, d: &Doc, page: int, answer: &Answer)
    requires
        quiet(v),
    ensures
        hit(v, d, 'r', page, answer) == begun(v, d, 'r').with_prefix(Prefix::Replace),
        plain(begun(v, d, 'r').vim) == plain(v),
{
    lemma_idle(v, d, 'r', page, answer);
    lemma_keys(begun(v, d, 'r'), d, 'r', page, answer);
}

pub proof fn lemma_quote(v: Vim, d: &Doc, page: int, answer: &Answer)
    requires
        quiet(v),
    ensures
        hit(v, d, '"', page, answer) == begun(v, d, '"').with_prefix(Prefix::Register),
        plain(begun(v, d, '"').vim) == plain(v),
{
    lemma_idle(v, d, '"', page, answer);
    lemma_keys(begun(v, d, '"'), d, '"', page, answer);
}

pub proof fn lemma_semicolon(v: Vim, d: &Doc, page: int, answer: &Answer)
    requires
        quiet(v),
    ensures
        hit(v, d, ';', page, answer) == begun(v, d, ';').find_again(Some(d), false, answer.pos),
        plain(begun(v, d, ';').vim) == plain(v),
{
    lemma_idle(v, d, ';', page, answer);
    lemma_keys(begun(v, d, ';'), d, ';', page, answer);
}

pub proof fn lemma_comma(v: Vim, d: &Doc, page: int, answer: &Answer)
    requires
        quiet(v),
    ensures
        hit(v, d, ',', page, answer) == begun(v, d, ',').find_again(Some(d), true, answer.pos),
        plain(begun(v, d, ',').vim) == plain(v),
{
    lemma_idle(v, d, ',', page, answer);
    lemma_keys(begun(v, d, ','), d, ',', page, answer);
}

pub proof fn lemma_f(v: Vim, d: &Doc, page: int, answer: &Answer)
    requires
        quiet(v),
    ensures
        hit(v, d, 'f', page, answer) == begun(v, d, 'f').with_find(FindPending::Find),
        plain(begun(v, d, 'f').vim) == plain(v),
{
    lemma_idle(v, d, 'f', page, answer);
    lemma_keys(begun(v, d, 'f'), d, 'f', page, answer);
}

pub proof fn lemma_upper_f(v: Vim, d: &Doc, page: int, answer: &Answer)
    requires
        quiet(v),
    ensures
        hit(v, d, 'F', page, answer) == begun(v, d, 'F').with_find(FindPending::FindBack),
        plain(begun(v, d, 'F').vim) == plain(v),
{
    lemma_idle(v, d, 'F', page, answer);
    lemma_keys(begun(v, d, 'F'), d, 'F', page, answer);
}

pub proof fn lemma_t(v: Vim, d: &Doc, page: int, answer: &Answer)
    requires
        quiet(v),
    ensures
        hit(v, d, 't', page, answer) == begun(v, d, 't').with_find(FindPending::Till),
        plain(begun(v, d, 't').vim) == plain(v),
{
    lemma_idle(v, d, 't', page, answer);
    lemma_keys(begun(v, d, 't'), d, 't', page, answer);
}

pub proof fn lemma_upper_t(v: Vim, d: &Doc, page: int, answer: &Answer)
    requires
        quiet(v),
    ensures
        hit(v, d, 'T', page, answer) == begun(v, d, 'T').with_find(FindPending::TillBack),
        plain(begun(v, d, 'T').vim) == plain(v),
{
    lemma_idle(v, d, 'T', page, answer);
    lemma_keys(begun(v, d, 'T'), d, 'T', page, answer);
}

pub proof fn lemma_d(v: Vim, d: &Doc, page: int, answer: &Answer)
    requires
        quiet(v),
    ensures
        hit(v, d, 'd', page, answer) == begun(v, d, 'd').with_operator(Operator::Delete),
        plain(begun(v, d, 'd').vim) == plain(v),
{
    lemma_idle(v, d, 'd', page, answer);
    lemma_keys(begun(v, d, 'd'), d, 'd', page, answer);
}

pub proof fn lemma_c(v: Vim, d: &Doc, page: int, answer: &Answer)
    requires
        quiet(v),
    ensures
        hit(v, d, 'c', page, answer) == begun(v, d, 'c').with_operator(Operator::Change),
        plain(begun(v, d, 'c').vim) == plain(v),
{
    lemma_idle(v, d, 'c', page, answer);
    lemma_keys(begun(v, d, 'c'), d, 'c', page, answer);
}

pub proof fn lemma_y(v: Vim, d: &Doc, page: int, answer: &Answer)
    requires
        quiet(v),
    ensures
        hit(v, d, 'y', page, answer) == begun(v, d, 'y').with_operator(Operator::Yank),
        plain(begun(v, d, 'y').vim) == plain(v),
{
    lemma_idle(v, d, 'y', page, answer);
    lemma_keys(begun(v, d, 'y'), d, 'y', page, answer);
}

pub proof fn lemma_right(v: Vim, d: &Doc, page: int, answer: &Answer)
    requires
        quiet(v),
    ensures
        hit(v, d, '>', page, answer) == begun(v, d, '>').with_operator(Operator::Indent),
        plain(begun(v, d, '>').vim) == plain(v),
{
    lemma_idle(v, d, '>', page, answer);
    lemma_keys(begun(v, d, '>'), d, '>', page, answer);
}

pub proof fn lemma_left(v: Vim, d: &Doc, page: int, answer: &Answer)
    requires
        quiet(v),
    ensures
        hit(v, d, '<', page, answer) == begun(v, d, '<').with_operator(Operator::Outdent),
        plain(begun(v, d, '<').vim) == plain(v),
{
    lemma_idle(v, d, '<', page, answer);
    lemma_keys(begun(v, d, '<'), d, '<', page, answer);
}

pub proof fn lemma_same_count(a: Vim, b: Vim)
    requires
        plain(a) == plain(b),
    ensures
        a.times() == b.times(),
        a.typed() == b.typed(),
        a.counting() == b.counting(),
        a.count == b.count,
        a.op_count == b.op_count,
        a.operator == b.operator,
        a.register == b.register,
        a.mode == b.mode,
        a.registers == b.registers,
        a.unnamed == b.unnamed,
        a.yanked == b.yanked,
        a.last_find == b.last_find,
        a.last_search == b.last_search,
        a.last_change == b.last_change,
        a.prefix == b.prefix,
        a.find_pending == b.find_pending,
{
    assert(plain(a).count == a.count && plain(b).count == b.count);
    assert(plain(a).op_count == a.op_count && plain(b).op_count == b.op_count);
    assert(plain(a).operator == a.operator && plain(b).operator == b.operator);
    assert(plain(a).register == a.register && plain(b).register == b.register);
    assert(plain(a).mode == a.mode && plain(b).mode == b.mode);
    assert(plain(a).registers == a.registers && plain(b).registers == b.registers);
    assert(plain(a).unnamed == a.unnamed && plain(b).unnamed == b.unnamed);
    assert(plain(a).yanked == a.yanked && plain(b).yanked == b.yanked);
    assert(plain(a).last_find == a.last_find && plain(b).last_find == b.last_find);
    assert(plain(a).last_search == a.last_search && plain(b).last_search == b.last_search);
    assert(plain(a).last_change == a.last_change && plain(b).last_change == b.last_change);
    assert(plain(a).prefix == a.prefix && plain(b).prefix == b.prefix);
    assert(plain(a).find_pending == a.find_pending && plain(b).find_pending == b.find_pending);
}

pub proof fn lemma_behind_r(v: Vim, d: &Doc, c: char, page: int, answer: &Answer)
    requires
        v.mode == Mode::Normal,
        v.prefix == Some(Prefix::Replace),
        v.find_pending is None,
        v.command is None,
        v.search is None,
    ensures
        hit(v, d, c, page, answer) == (Step {
            vim: Vim { prefix: None, ..begun(v, d, c).vim },
            out: Seq::empty(),
        }).replace_char(Some(d), c),
        plain(begun(v, d, c).vim) == plain(v),
{
    lemma_prefixed(v, d, c, page, answer, Prefix::Replace);
    reveal(Step::prefix_key);
}

/// A key that moves the caret, but for `0`, which can be a digit, and those that need another key.
pub open spec fn is_motion(c: char) -> bool {
    c == 'h' || c == 'l' || c == ' ' || c == 'j' || c == 'k' || c == 'w' || c == 'W' || c == 'b'
        || c == 'B' || c == 'e' || c == 'E' || c == '^' || c == '$' || c == '|' || c == '{' || c
        == '}' || c == '%' || c == 'G' || c == 'H' || c == 'M' || c == 'L'
}

pub proof fn lemma_plain_motion(v: Vim, d: &Doc, c: char, page: int, answer: &Answer)
    requires
        quiet(v),
        (is_motion(c) && c != 'j' && c != 'k') || (c == '0' && v.count is None),
    ensures
        hit(v, d, c, page, answer) == begun(v, d, c).plain_motion(
            Some(d),
            KeyCode::Char(c),
            page,
            answer,
        ),
        plain(begun(v, d, c).vim) == plain(v),
{
    lemma_idle(v, d, c, page, answer);
    lemma_same_count(begun(v, d, c).vim, v);
    reveal(Step::idle_key);
}

pub proof fn lemma_operator_motion(
    v: Vim,
    d: &Doc,
    c: char,
    page: int,
    answer: &Answer,
    op: Operator,
)
    requires
        armed(v, op),
        is_motion(c) || (c == '0' && v.op_count is None),
    ensures
        hit(v, d, c, page, answer) == begun(v, d, c).operator_motion(
            Some(d),
            op,
            KeyCode::Char(c),
            page,
            answer,
        ),
        plain(begun(v, d, c).vim) == plain(v),
{
    lemma_armed(v, d, c, page, answer, op);
    lemma_same_count(begun(v, d, c).vim, v);
    reveal(Step::operator_key);
}

pub proof fn lemma_digit(v: Vim, d: &Doc, c: char, page: int, answer: &Answer)
    requires
        quiet(v) || (v.operator is Some && armed(v, v.operator.unwrap())),
        '1' <= c <= '9' || (c == '0' && v.counting()),
    ensures
        hit(v, d, c, page, answer) == begun(v, d, c).digit(c),
        plain(begun(v, d, c).vim) == plain(v),
{
    if quiet(v) {
        lemma_idle(v, d, c, page, answer);
        lemma_same_count(begun(v, d, c).vim, v);
        reveal(Step::idle_key);
    } else {
        lemma_armed(v, d, c, page, answer, v.operator.unwrap());
        lemma_same_count(begun(v, d, c).vim, v);
        reveal(Step::operator_key);
    }
}

pub proof fn lemma_object_prefix(
    v: Vim,
    d: &Doc,
    c: char,
    page: int,
    answer: &Answer,
    op: Operator,
)
    requires
        armed(v, op),
        c == 'a' || c == 'i',
    ensures
        hit(v, d, c, page, answer) == begun(v, d, c).with_prefix(
            Prefix::Object { around: c == 'a' },
        ),
        plain(begun(v, d, c).vim) == plain(v),
{
    lemma_armed(v, d, c, page, answer, op);
    reveal(Step::operator_key);
}

/// Whether a key behind a prefix is waited for, in normal mode.
pub open spec fn waiting(v: Vim, p: Prefix) -> bool {
    &&& v.mode == Mode::Normal
    &&& v.prefix == Some(p)
    &&& v.find_pending is None
    &&& v.command is None
    &&& v.search is None
}

/// Where a key behind a prefix starts from.
pub open spec fn begun_behind(v: Vim, d: &Doc, c: char) -> Step {
    Step { vim: Vim { prefix: None, ..begun(v, d, c).vim }, out: Seq::empty() }
}

pub proof fn lemma_behind_object(
    v: Vim,
    d: &Doc,
    c: char,
    around: bool,
    object: TextObject,
    page: int,
    answer: &Answer,
)
    requires
        waiting(v, Prefix::Object { around }),
        object_named(KeyCode::Char(c)) == Some(object),
    ensures
        hit(v, d, c, page, answer) == begun_behind(v, d, c).text_object(
            Some(d),
            object,
            answer.range,
        ),
        plain(begun(v, d, c).vim) == plain(v),
{
    lemma_prefixed(v, d, c, page, answer, Prefix::Object { around });
    reveal(Step::prefix_key);
}

pub proof fn lemma_behind_g(v: Vim, d: &Doc, c: char, page: int, answer: &Answer)
    requires
        waiting(v, Prefix::G),
    ensures
        hit(v, d, c, page, answer) == begun_behind(v, d, c).g_key(Some(d), key_of(c), answer),
        plain(begun(v, d, c).vim) == plain(v),
{
    lemma_prefixed(v, d, c, page, answer, Prefix::G);
    reveal(Step::prefix_key);
}

pub proof fn lemma_behind_z(v: Vim, d: &Doc, c: char, page: int, answer: &Answer)
    requires
        waiting(v, Prefix::Z),
    ensures
        hit(v, d, c, page, answer) == begun_behind(v, d, c).z_key(Some(d), key_of(c), page),
        plain(begun(v, d, c).vim) == plain(v),
{
    lemma_prefixed(v, d, c, page, answer, Prefix::Z);
    reveal(Step::prefix_key);
}

pub proof fn lemma_behind_quote(v: Vim, d: &Doc, c: char, page: int, answer: &Answer)
    requires
        waiting(v, Prefix::Register),
    ensures
        hit(v, d, c, page, answer) == (Step {
            vim: Vim { prefix: None, register: Some(c), ..begun(v, d, c).vim },
            out: Seq::empty(),
        }),
        plain(begun(v, d, c).vim) == plain(v),
{
    lemma_prefixed(v, d, c, page, answer, Prefix::Register);
    reveal(Step::prefix_key);
}

pub proof fn lemma_finding(v: Vim, d: &Doc, c: char, fp: FindPending, page: int, answer: &Answer)
    requires
        v.mode == Mode::Normal,
        v.find_pending == Some(fp),
        v.command is None,
        v.search is None,
    ensures
        hit(v, d, c, page, answer) == (Step {
            vim: Vim { find_pending: None, ..begun(v, d, c).vim },
            out: Seq::empty(),
        }).find(Some(d), fp, c, true, answer.pos),
        plain(begun(v, d, c).vim) == plain(v),
{
    reveal(Step::normal_key);
}

/// A visual mode with nothing pending but a count and a register.
pub open spec fn selecting(v: Vim) -> bool {
    &&& v.mode == Mode::Visual || v.mode == Mode::VisualLine
    &&& v.operator is None
    &&& v.op_count is None
    &&& v.prefix is None
    &&& v.find_pending is None
    &&& v.command is None
    &&& v.search is None
}

pub proof fn lemma_selecting(v: Vim, d: &Doc, c: char, page: int, answer: &Answer)
    requires
        v.mode == Mode::Visual || v.mode == Mode::VisualLine,
        v.command is None,
        v.search is None,
    ensures
        hit(v, d, c, page, answer) == begun(v, d, c).visual_key(Some(d), key_of(c), page, answer),
        plain(begun(v, d, c).vim) == plain(v),
{
}

pub proof fn lemma_selecting_keys(v: Vim, d: &Doc, c: char, page: int, answer: &Answer)
    requires
        selecting(v),
    ensures
        plain(begun(v, d, c).vim) == plain(v),
        c == 'd' ==> hit(v, d, c, page, answer) == begun(v, d, c).visual_operator(Some(d), Operator::Delete),
        c == 'x' ==> hit(v, d, c, page, answer) == begun(v, d, c).visual_operator(Some(d), Operator::Delete),
        c == 'c' ==> hit(v, d, c, page, answer) == begun(v, d, c).visual_operator(Some(d), Operator::Change),
        c == 's' ==> hit(v, d, c, page, answer) == begun(v, d, c).visual_operator(Some(d), Operator::Change),
        c == 'y' ==> hit(v, d, c, page, answer) == begun(v, d, c).visual_operator(Some(d), Operator::Yank),
        c == '>' ==> hit(v, d, c, page, answer) == begun(v, d, c).visual_operator(Some(d), Operator::Indent),
        c == '<' ==> hit(v, d, c, page, answer) == begun(v, d, c).visual_operator(Some(d), Operator::Outdent),
        c == 'u' ==> hit(v, d, c, page, answer) == begun(v, d, c).visual_operator(Some(d), Operator::Lower),
        c == 'U' ==> hit(v, d, c, page, answer) == begun(v, d, c).visual_operator(Some(d), Operator::Upper),
        c == '~' ==> hit(v, d, c, page, answer) == begun(v, d, c).visual_operator(Some(d), Operator::ToggleCase),
        c == 'v' ==> hit(v, d, c, page, answer) == begun(v, d, c).enter_visual(Some(d), Mode::Visual),
        c == 'V' ==> hit(v, d, c, page, answer) == begun(v, d, c).enter_visual(Some(d), Mode::VisualLine),
        c == 'o' ==> hit(v, d, c, page, answer) == begun(v, d, c).swap_ends(Some(d)),
        c == 'J' ==> hit(v, d, c, page, answer) == begun(v, d, c).join_selected(Some(d)),
        c == 'j' ==> hit(v, d, c, page, answer) == begun(v, d, c).by_lines(true, true),
        c == 'k' ==> hit(v, d, c, page, answer) == begun(v, d, c).by_lines(false, true),
        c == 'r' ==> hit(v, d, c, page, answer) == begun(v, d, c).with_prefix(Prefix::Replace),
        c == 'i' ==> hit(v, d, c, page, answer) == begun(v, d, c).with_prefix(Prefix::Object { around: false }),
        c == 'a' ==> hit(v, d, c, page, answer) == begun(v, d, c).with_prefix(Prefix::Object { around: true }),
        c == 'g' ==> hit(v, d, c, page, answer) == begun(v, d, c).with_prefix(Prefix::G),
        (is_motion(c) && c != 'j' && c != 'k') || (c == '0' && v.count is None) ==> hit(
            v,
            d,
            c,
            page,
            answer,
        ) == begun(v, d, c).visual_motion(Some(d), KeyCode::Char(c), page, answer),
{
    lemma_selecting(v, d, c, page, answer);
    lemma_same_count(begun(v, d, c).vim, v);
    reveal(Step::visual_key);
}

pub proof fn lemma_armed_find(
    v: Vim,
    d: &Doc,
    k: char,
    fp: FindPending,
    page: int,
    answer: &Answer,
    op: Operator,
)
    requires
        armed(v, op),
        find_of(k) == Some(fp),
    ensures
        hit(v, d, k, page, answer) == begun(v, d, k).with_find(fp),
        plain(begun(v, d, k).vim) == plain(v),
{
    lemma_armed(v, d, k, page, answer, op);
    reveal(Step::operator_key);
}

pub proof fn lemma_armed_g(v: Vim, d: &Doc, page: int, answer: &Answer, op: Operator)
    requires
        armed(v, op),
    ensures
        hit(v, d, 'g', page, answer) == begun(v, d, 'g').with_prefix(Prefix::G),
        plain(begun(v, d, 'g').vim) == plain(v),
{
    lemma_armed(v, d, 'g', page, answer, op);
    reveal(Step::operator_key);
}

} // verus!
