//! Hex viewer: an `offset  hex bytes  |ascii|` dump of any file.

use vstd::prelude::*;

use crate::contribution::{Contributions, Offer};
use crate::effect::{effects_view, emit, no_effects, Effect, EffectView};
use crate::format::{
    decimal, decimal_of, hexadecimal, hexadecimal_of, join3, join5, pad_left, padded_left,
};
use crate::text::{same, texts_of};
use crate::ui::{
    lines_view, no_lines, push_line, row, styled, LineView, PanelLine, Span, ViewerContent,
    ViewerView,
};

verus! {

/// Bytes dumped at most.
pub const MAX_BYTES: usize = 262_144;

/// Bytes per row.
pub const COLS: usize = 16;

/// The hex column of one byte: two digits and a space, or as many blanks past the end.
pub open spec fn hex_cell(s: Seq<u8>, i: int) -> Seq<char> {
    if i < s.len() {
        padded_left(hexadecimal(s[i] as nat), '0', 2).push(' ')
    } else {
        seq![' ', ' ', ' ']
    }
}

/// The first `n` hex columns of the row that starts at `at`, with a gap in the middle.
pub open spec fn hex_cells(s: Seq<u8>, at: int, n: int) -> Seq<char>
    decreases n,
{
    if n <= 0 {
        Seq::empty()
    } else {
        let before = hex_cells(s, at, n - 1);
        (if n - 1 == COLS / 2 {
            before.push(' ')
        } else {
            before
        }) + hex_cell(s, at + n - 1)
    }
}

/// A byte as it stands in the text column.
pub open spec fn shown_byte(b: u8) -> char {
    if 0x20 <= b < 0x7f {
        b as char
    } else {
        '.'
    }
}

/// Where the row that starts at `at` ends.
pub open spec fn row_end(len: int, at: int) -> int {
    if at + COLS <= len {
        at + COLS
    } else {
        len
    }
}

/// The row that starts at `at`.
pub open spec fn dump_row(s: Seq<u8>, at: int) -> LineView {
    row(
        seq![
            styled(padded_left(hexadecimal(at as nat), '0', 8) + "  "@, "dim"@),
            styled(hex_cells(s, at, COLS as int), "text"@),
            styled(
                " |"@ + s.subrange(at, row_end(s.len() as int, at)).map_values(
                    |b: u8| shown_byte(b),
                ) + "|"@,
                "dim"@,
            ),
        ],
    )
}

/// The number of rows that `n` bytes take up.
pub open spec fn row_count(n: int) -> int {
    (n + COLS - 1) / (COLS as int)
}

/// A dump: one row per sixteen bytes.
pub open spec fn dump_rows(s: Seq<u8>) -> Seq<LineView> {
    Seq::new(row_count(s.len() as int) as nat, |k: int| dump_row(s, k * COLS))
}

fn push_cell(out: &mut String, s: &[u8], at: usize, i: usize)
    requires
        at <= s.len(),
    ensures
        final(out)@ == old(out)@ + hex_cell(s@, at + i),
{
    if i < s.len() - at {
        let digits: String = pad_left(hexadecimal_of(s[at + i] as usize).as_str(), '0', 2);
        out.push_str(digits.as_str());
        out.push(' ');
    } else {
        out.push(' ');
        out.push(' ');
        out.push(' ');
    }
    assert(out@ =~= old(out)@ + hex_cell(s@, at + i));
}

fn dump_line(bytes: &[u8], at: usize) -> (r: PanelLine)
    requires
        at < bytes.len(),
    ensures
        r@ == dump_row(bytes@, at as int),
{
    let mut hex: String = String::new();
    let mut i: usize = 0;
    while i < COLS
        invariant
            i <= COLS,
            at < bytes.len(),
            hex@ == hex_cells(bytes@, at as int, i as int),
        decreases COLS - i,
    {
        if i == COLS / 2 {
            hex.push(' ');
        }
        push_cell(&mut hex, bytes, at, i);
        i += 1;
    }
    let end: usize = if COLS <= bytes.len() - at {
        at + COLS
    } else {
        bytes.len()
    };
    let mut ascii: String = String::new();
    let mut k: usize = at;
    while k < end
        invariant
            at <= k <= end <= bytes.len(),
            ascii@.len() == k - at,
            forall|j: int| 0 <= j < ascii@.len() ==> ascii@[j] == shown_byte(bytes@[at + j]),
        decreases end - k,
    {
        let b: u8 = bytes[k];
        ascii.push(
            if b >= 0x20 && b < 0x7f {
                b as char
            } else {
                '.'
            },
        );
        k += 1;
    }
    assert(ascii@ =~= bytes@.subrange(at as int, end as int).map_values(|b: u8| shown_byte(b)));
    let mut offset: String = pad_left(hexadecimal_of(at).as_str(), '0', 8);
    offset.push_str("  ");
    PanelLine::three(
        Span::new(offset, "dim"),
        Span::new(hex, "text"),
        Span::new(join3(" |", ascii.as_str(), "|"), "dim"),
    )
}

/// One styled row per sixteen bytes: `00000010  48 65 6c 6c 6f ..  |Hello..|`.
pub fn dump(bytes: &[u8]) -> (r: Vec<PanelLine>)
    ensures
        lines_view(r@) == dump_rows(bytes@),
{
    let mut lines: Vec<PanelLine> = no_lines();
    let mut at: usize = 0;
    let ghost mut n: int = 0;
    while at < bytes.len()
        invariant
            at <= bytes.len(),
            0 <= n,
            at < bytes.len() ==> at == n * COLS,
            at == bytes.len() ==> n == row_count(bytes@.len() as int),
            lines_view(lines@) == Seq::new(n as nat, |k: int| dump_row(bytes@, k * COLS)),
        decreases bytes.len() - at,
    {
        let line: PanelLine = dump_line(bytes, at);
        push_line(&mut lines, line);
        at = if COLS < bytes.len() - at {
            at + COLS
        } else {
            bytes.len()
        };
        proof {
            assert(lines_view(lines@) =~= Seq::new(
                (n + 1) as nat,
                |k: int| dump_row(bytes@, k * COLS),
            ));
            n = n + 1;
        }
    }
    lines
}

/// The status of a dump of `shown` bytes out of a file of `total`.
pub open spec fn dump_status(total: nat, shown: nat) -> Seq<char> {
    if shown < total {
        decimal(total) + " bytes — showing the first "@ + decimal(shown) + " ("@ + decimal(
            row_count(shown as int) as nat,
        ) + " rows)"@
    } else {
        decimal(shown) + " bytes ("@ + decimal(row_count(shown as int) as nat) + " rows)"@
    }
}

/// The viewer content of a file of `total` bytes whose first bytes are `bytes`.
pub open spec fn dump_content(total: nat, bytes: Seq<u8>) -> ViewerView {
    ViewerView { status: Some(dump_status(total, bytes.len())), lines: dump_rows(bytes) }
}

/// Render the dump of what was read of a file of `total` bytes, saying what was left out.
pub fn render_dump(total: u64, bytes: &[u8]) -> (r: ViewerContent)
    ensures
        r@ == dump_content(total as nat, bytes@),
{
    let n: usize = bytes.len();
    let whole: usize = n / COLS;
    let rows: String = decimal_of(
        (if n % COLS > 0 {
            whole + 1
        } else {
            whole
        }) as u64,
    );
    let shown: String = decimal_of(n as u64);
    let status: String = if (n as u64) < total {
        let all: String = decimal_of(total);
        let head: String = join3(all.as_str(), " bytes — showing the first ", shown.as_str());
        let r: String = join5(head.as_str(), " (", rows.as_str(), " rows)", "");
        assert("" @ =~= Seq::empty()) by {
            reveal_strlit("");
        }
        assert(r@ =~= dump_status(total as nat, n as nat));
        r
    } else {
        let r: String = join5(shown.as_str(), " bytes (", rows.as_str(), " rows)", "");
        assert("" @ =~= Seq::empty()) by {
            reveal_strlit("");
        }
        assert(r@ =~= dump_status(total as nat, n as nat));
        r
    };
    ViewerContent { status: Some(status), lines: dump(bytes) }
}

/// What the plugin contributes.
pub open spec fn contributed() -> Offer {
    Offer::none()
        .command("view.openAsHex"@, "View: Open as Hex"@)
        .keybinding("ctrl+k ctrl+h"@, "view.openAsHex"@)
        .viewer("hexview.binary"@, "Hex View"@, Seq::empty())
}

/// Shows files as hex dumps.
pub struct HexViewPlugin;

impl HexViewPlugin {
    /// What the plugin contributes. It claims no extensions.
    pub fn contributions() -> (r: Contributions)
        ensures
            r@ == contributed(),
    {
        let none: Vec<String> = Vec::new();
        assert(texts_of(none@) =~= Seq::empty());
        Contributions::builder()
            .command("view.openAsHex", "View: Open as Hex")
            .keybinding("ctrl+k ctrl+h", "view.openAsHex")
            .viewer("hexview.binary", "Hex View", none)
    }

    /// Run a command; none where it is not the viewer's. `path` is that of the active tab.
    pub fn run_command(command_id: &str, path: Option<&str>) -> (r: Option<Vec<Effect>>)
        ensures
            r is Some == (command_id@ == "view.openAsHex"@),
            r is Some ==> effects_view(r->0@) == seq![
                match path {
                    Some(p) => EffectView::OpenViewer { path: p@, viewer: "hexview.binary"@ },
                    None => EffectView::Notify(
                        "Open a file first — there is nothing to view as hex"@,
                    ),
                },
            ],
    {
        if !same(command_id, "view.openAsHex") {
            return None;
        }
        let mut out: Vec<Effect> = no_effects();
        match path {
            Some(p) => emit(
                &mut out,
                Effect::OpenViewer { path: p.to_owned(), viewer: "hexview.binary".to_owned() },
            ),
            None => emit(
                &mut out,
                Effect::Notify(
                    "Open a file first — there is nothing to view as hex".to_owned(),
                ),
            ),
        }
        Some(out)
    }
}

/// Every row has the text column in the same place.
pub proof fn hex_column_is_fixed(s: Seq<u8>, at: int, n: int)
    requires
        0 <= at,
        0 <= n <= COLS,
    ensures
        hex_cells(s, at, n).len() == 3 * n + (if n > COLS / 2 {
            1int
        } else {
            0
        }),
    decreases n,
{
    if n > 0 {
        hex_column_is_fixed(s, at, n - 1);
        if at + n - 1 < s.len() {
            let b = s[at + n - 1] as nat;
            reveal_with_fuel(hexadecimal, 3);
            assert(hexadecimal(b).len() == 1 || hexadecimal(b).len() == 2);
        }
    }
}

/// Where the hex column of byte `j` of a row begins.
pub open spec fn cell_start(j: int) -> int {
    3 * j + (if j >= COLS / 2 {
        1int
    } else {
        0
    })
}

proof fn lemma_cell(s: Seq<u8>, at: int, j: int, n: int)
    requires
        0 <= at,
        0 <= j < n <= COLS,
    ensures
        hex_cells(s, at, n).len() >= cell_start(j) + 3,
        hex_cells(s, at, n).subrange(cell_start(j), cell_start(j) + 3) == hex_cell(s, at + j),
    decreases n,
{
    hex_column_is_fixed(s, at, n);
    hex_column_is_fixed(s, at, n - 1);
    let before = hex_cells(s, at, n - 1);
    let whole = hex_cells(s, at, n);
    if j < n - 1 {
        lemma_cell(s, at, j, n - 1);
        assert(whole.subrange(cell_start(j), cell_start(j) + 3) =~= before.subrange(
            cell_start(j),
            cell_start(j) + 3,
        ));
    } else {
        assert(whole.subrange(cell_start(j), cell_start(j) + 3) =~= hex_cell(s, at + j));
    }
}

/// Every byte stands in the dump, in its own column of its own row, in hex and as text.
pub proof fn every_byte_is_shown(s: Seq<u8>, i: int)
    requires
        0 <= i < s.len(),
    ensures
        ({
            let k = i / (COLS as int);
            let j = i % (COLS as int);
            let at = k * COLS;
            &&& 0 <= k < dump_rows(s).len()
            &&& dump_rows(s)[k] == dump_row(s, at)
            &&& at + j == i < row_end(s.len() as int, at)
            &&& hex_cells(s, at, COLS as int).subrange(cell_start(j), cell_start(j) + 3)
                == hex_cell(s, i)
            &&& s.subrange(at, row_end(s.len() as int, at)).map_values(|b: u8| shown_byte(b))[j]
                == shown_byte(s[i])
        }),
{
    let k = i / (COLS as int);
    let j = i % (COLS as int);
    lemma_cell(s, k * COLS, j, COLS as int);
}

} // verus!
