//! A file and a line in a row's payload.

use vstd::prelude::*;

use crate::format::decimal;
use crate::number::{decimals_read_back, is_digit, lemma_decimal, parse_usize, parsed};
use crate::path::{after_last, last_of, lemma_last_is};
use crate::text::{chars_of, string_of};

verus! {

/// A file and a line as a payload.
pub open spec fn payload_of(path: Seq<char>, line: nat) -> Seq<char> {
    path + "\t"@ + decimal(line)
}

/// A payload's file and line.
pub open spec fn place_of(payload: Seq<char>) -> Option<(Seq<char>, int)> {
    let i = last_of(payload, '\t');
    if i < 0 {
        None
    } else {
        match parsed(payload.skip(i + 1), usize::MAX as int) {
            Some(line) => Some((payload.take(i), line)),
            None => None,
        }
    }
}

/// A payload's file and line.
pub fn read_place(payload: &str) -> (r: Option<(String, usize)>)
    ensures
        match r {
            Some((path, line)) => place_of(payload@) == Some((path@, line as int)),
            None => place_of(payload@) is None,
        },
{
    let cs: Vec<char> = chars_of(payload);
    let i: usize = after_last(&cs, '\t');
    if i == 0 {
        return None;
    }
    let rest: String = string_of(cs.as_slice(), i, cs.len());
    assert(rest@ =~= payload@.skip(i as int));
    match parse_usize(rest.as_str()) {
        Some(line) => {
            let path: String = string_of(cs.as_slice(), 0, i - 1);
            assert(path@ =~= payload@.take(i - 1));
            Some((path, line))
        },
        None => None,
    }
}

/// A payload reads back as its file and line, whatever characters the path holds.
pub proof fn payloads_read_back(path: Seq<char>, line: usize)
    ensures
        place_of(payload_of(path, line as nat)) == Some((path, line as int)),
{
    let d = decimal(line as nat);
    let s = payload_of(path, line as nat);
    reveal_strlit("\t");
    decimals_read_back(line as nat, usize::MAX as int);
    lemma_decimal(line as nat);
    let n = path.len() as int;
    assert(s[n] == '\t');
    assert forall|k: int| n < k < s.len() implies s[k] != '\t' by {
        assert(s[k] == d[k - n - 1]);
        assert(is_digit(d[k - n - 1]));
    }
    lemma_last_is(s, '\t', n, s.len() as int);
    assert(s.skip(n + 1) =~= d);
    assert(s.take(n) =~= path);
}

} // verus!
