//! Results of a listing page: its table rows, modelled as plain values, turned
//! into a batch of result records.
use vstd::prelude::*;

use crate::domain::{ItemView, SubtitleSearchResultItem, items_view, opt_item_view};
use crate::markers::{bracket_numbers, first_bracket_marker, numbers_of, year_of, year_text};
use crate::text::{
    chars_of,
    find_char,
    lemma_find_char_bounds,
    normalize,
    normalize_chars,
    replace_all,
    replace_all_exec,
    string_of,
};

verus! {

/// A link inside a table cell.
pub struct PageLink {
    /// The link's first text fragment, if it has one.
    pub text: Option<String>,
    /// The link's target, if it has one.
    pub href: Option<String>,
}

pub struct LinkView {
    pub text: Option<Seq<char>>,
    pub href: Option<Seq<char>>,
}

pub open spec fn opt_chars(o: Option<String>) -> Option<Seq<char>> {
    match o {
        Some(s) => Some(s@),
        None => None,
    }
}

impl View for PageLink {
    type V = LinkView;

    open spec fn view(&self) -> LinkView {
        LinkView { text: opt_chars(self.text), href: opt_chars(self.href) }
    }
}

/// A cell of a listing row.
pub struct TableCell {
    /// The markup inside the cell.
    pub inner_html: String,
    /// The first link inside the cell, if any.
    pub link: Option<PageLink>,
}

pub struct CellView {
    pub html: Seq<char>,
    pub link: Option<LinkView>,
}

pub open spec fn opt_link_view(o: Option<PageLink>) -> Option<LinkView> {
    match o {
        Some(l) => Some(l@),
        None => None,
    }
}

impl View for TableCell {
    type V = CellView;

    open spec fn view(&self) -> CellView {
        CellView { html: self.inner_html@, link: opt_link_view(self.link) }
    }
}

pub open spec fn row_view(cells: Seq<TableCell>) -> Seq<CellView> {
    cells.map_values(|c: TableCell| c@)
}

pub open spec fn rows_view(rows: Seq<Vec<TableCell>>) -> Seq<Seq<CellView>> {
    rows.map_values(|r: Vec<TableCell>| row_view(r@))
}

/// The two layouts of listing rows that the site has used.
#[derive(PartialEq, Eq, Structural, Debug, Clone, Copy)]
pub enum RowShape {
    /// Only rows marked as data rows are read. The title cell is the first
    /// cell holding a link; the title is the link's text, and the season and
    /// episode come from a `[SxxEyy]` marker in the cell's text.
    Marked,
    /// Every row is read and the second cell is the title cell. Its text lines
    /// are the title, the year and the line holding the `[SxxEyy]` marker.
    Positional,
}

// ---------------------------------------------------------------------------
// Specification
// ---------------------------------------------------------------------------

/// The first cell at or after `i` that holds a link.
pub open spec fn first_linked_cell(cells: Seq<CellView>, i: int) -> Option<CellView>
    decreases cells.len() - i,
{
    if i < 0 || i >= cells.len() {
        None
    } else if cells[i].link is Some {
        Some(cells[i])
    } else {
        first_linked_cell(cells, i + 1)
    }
}

/// The cell of a row that holds its title.
pub open spec fn title_cell(cells: Seq<CellView>, shape: RowShape) -> Option<CellView> {
    match shape {
        RowShape::Marked => first_linked_cell(cells, 0),
        RowShape::Positional => if cells.len() > 1 {
            Some(cells[1])
        } else {
            None
        },
    }
}

/// The target of a link; empty when there is no link or it has no target.
pub open spec fn href_of(link: Option<LinkView>) -> Seq<char> {
    match link {
        Some(l) => match l.href {
            Some(h) => h,
            None => Seq::empty(),
        },
        None => Seq::empty(),
    }
}

/// The lines of `s` from index `start` on, split at each newline.
pub open spec fn lines_from(s: Seq<char>, start: int) -> Seq<Seq<char>>
    decreases s.len() - start,
{
    let e = find_char(s, '\n', start);
    if 0 <= start <= e < s.len() {
        seq![s.subrange(start, e)] + lines_from(s, e + 1)
    } else {
        seq![s.subrange(start, s.len() as int)]
    }
}

pub open spec fn lines(s: Seq<char>) -> Seq<Seq<char>> {
    lines_from(s, 0)
}

/// The record of a row of the marked layout, from its title cell; none when
/// the cell's text has at most one character or its link has no text.
pub open spec fn marked_item(index: nat, cell: CellView) -> Option<ItemView> {
    let text = normalize(cell.html);
    if text.len() <= 1 {
        None
    } else {
        match cell.link {
            Some(l) => match l.text {
                Some(t) => Some(
                    ItemView {
                        index,
                        title: replace_all(t, seq!['\n'], seq![' ']),
                        details_url: href_of(cell.link),
                        season: numbers_of(first_bracket_marker(text, 0)).0,
                        episode: numbers_of(first_bracket_marker(text, 0)).1,
                    },
                ),
                None => None,
            },
            None => None,
        }
    }
}

/// The marker of the third line of a positional title cell, if there is one.
pub open spec fn positional_marker(parts: Seq<Seq<char>>) -> Option<(nat, nat)> {
    if parts.len() > 2 {
        first_bracket_marker(parts[2], 0)
    } else {
        None
    }
}

/// The year of the second line of a positional title cell; empty without one.
pub open spec fn positional_year(parts: Seq<Seq<char>>) -> Seq<char> {
    if parts.len() > 1 {
        year_text(parts[1])
    } else {
        Seq::empty()
    }
}

/// The record of a row of the positional layout, from its title cell; none
/// when the cell's text has at most one character.
pub open spec fn positional_item(index: nat, cell: CellView) -> Option<ItemView> {
    let text = normalize(cell.html);
    if text.len() <= 1 {
        None
    } else {
        let parts = lines(text);
        Some(
            ItemView {
                index,
                title: parts[0] + seq![' ', '('] + positional_year(parts) + seq![')'],
                details_url: href_of(cell.link),
                season: numbers_of(positional_marker(parts)).0,
                episode: numbers_of(positional_marker(parts)).1,
            },
        )
    }
}

/// The record of a row, numbered `index`; none when the row is skipped.
pub open spec fn row_item(index: nat, cells: Seq<CellView>, shape: RowShape) -> Option<ItemView> {
    match title_cell(cells, shape) {
        None => None,
        Some(c) => match shape {
            RowShape::Marked => marked_item(index, c),
            RowShape::Positional => positional_item(index, c),
        },
    }
}

/// A row gives a record.
pub open spec fn row_usable(cells: Seq<CellView>, shape: RowShape) -> bool {
    row_item(1, cells, shape) is Some
}

/// The batch of a listing: the records of its usable rows in order, numbered
/// from 1 in the order they are kept.
pub open spec fn listing(rows: Seq<Seq<CellView>>, shape: RowShape) -> Seq<ItemView>
    decreases rows.len(),
{
    if rows.len() == 0 {
        Seq::empty()
    } else {
        let prev = listing(rows.drop_last(), shape);
        match row_item(prev.len() + 1, rows.last(), shape) {
            Some(it) => prev.push(it),
            None => prev,
        }
    }
}

// ---------------------------------------------------------------------------
// Lemmas
// ---------------------------------------------------------------------------

/// Whether a row is kept does not depend on the number it would get.
pub proof fn lemma_row_item_index(a: nat, b: nat, cells: Seq<CellView>, shape: RowShape)
    ensures
        row_item(a, cells, shape) is Some <==> row_item(b, cells, shape) is Some,
        row_item(a, cells, shape) is Some ==> row_item(a, cells, shape)->0.index == a,
{
}

pub proof fn lemma_listing_len(rows: Seq<Seq<CellView>>, shape: RowShape)
    ensures
        listing(rows, shape).len() <= rows.len(),
    decreases rows.len(),
{
    if rows.len() > 0 {
        lemma_listing_len(rows.drop_last(), shape);
    }
}

/// The records of a batch are numbered 1, 2, 3, ... in order.
pub proof fn lemma_listing_numbered(rows: Seq<Seq<CellView>>, shape: RowShape)
    ensures
        forall|i: int|
            0 <= i < listing(rows, shape).len() ==> #[trigger] listing(rows, shape)[i].index == i
                + 1,
    decreases rows.len(),
{
    if rows.len() > 0 {
        lemma_listing_numbered(rows.drop_last(), shape);
        let prev = listing(rows.drop_last(), shape);
        lemma_row_item_index(prev.len() + 1, prev.len() + 1, rows.last(), shape);
    }
}

/// When every row of a listing is usable, the batch has one record per row,
/// in document order, the record of the `i`-th row (from 0) being numbered `i + 1`.
pub proof fn lemma_listing_all_usable(rows: Seq<Seq<CellView>>, shape: RowShape)
    requires
        forall|i: int| 0 <= i < rows.len() ==> row_usable(#[trigger] rows[i], shape),
    ensures
        listing(rows, shape).len() == rows.len(),
        forall|i: int|
            0 <= i < rows.len() ==> Some(#[trigger] listing(rows, shape)[i]) == row_item(
                (i + 1) as nat,
                rows[i],
                shape,
            ),
        forall|i: int| 0 <= i < rows.len() ==> #[trigger] listing(rows, shape)[i].index == i + 1,
    decreases rows.len(),
{
    if rows.len() > 0 {
        let d = rows.drop_last();
        assert forall|i: int| 0 <= i < d.len() implies row_usable(#[trigger] d[i], shape) by {
            assert(d[i] == rows[i]);
        }
        lemma_listing_all_usable(d, shape);
        let prev = listing(d, shape);
        assert(row_usable(rows[rows.len() - 1], shape));
        lemma_row_item_index(prev.len() + 1, 1, rows.last(), shape);
        lemma_row_item_index(prev.len() + 1, prev.len() + 1, rows.last(), shape);
        assert forall|i: int| 0 <= i < rows.len() implies Some(
            #[trigger] listing(rows, shape)[i],
        ) == row_item((i + 1) as nat, rows[i], shape) by {
            if i < d.len() {
                assert(d[i] == rows[i]);
            }
        }
    }
}

/// A row that gives no record leaves the batch exactly as it would be
/// without that row: it is left out and the numbering of later rows does not move.
pub proof fn lemma_listing_skips_unusable(
    pre: Seq<Seq<CellView>>,
    bad: Seq<CellView>,
    post: Seq<Seq<CellView>>,
    shape: RowShape,
)
    requires
        !row_usable(bad, shape),
    ensures
        listing(pre + seq![bad] + post, shape) == listing(pre + post, shape),
    decreases post.len(),
{
    let with_bad = pre + seq![bad] + post;
    let without = pre + post;
    if post.len() == 0 {
        assert(with_bad.drop_last() =~= pre);
        assert(without =~= pre);
        lemma_row_item_index(listing(pre, shape).len() + 1, 1, bad, shape);
    } else {
        lemma_listing_skips_unusable(pre, bad, post.drop_last(), shape);
        assert(with_bad.drop_last() =~= pre + seq![bad] + post.drop_last());
        assert(without.drop_last() =~= pre + post.drop_last());
        assert(with_bad.last() == post.last());
        assert(without.last() == post.last());
    }
}

/// A row whose title cell has at most one character of text gives no record.
pub proof fn lemma_short_title_cell_unusable(cells: Seq<CellView>, shape: RowShape)
    requires
        title_cell(cells, shape) is Some,
        normalize(title_cell(cells, shape)->0.html).len() <= 1,
    ensures
        !row_usable(cells, shape),
{
}

proof fn lemma_lines_nonempty(s: Seq<char>, start: int)
    ensures
        lines_from(s, start).len() >= 1,
{
}

// ---------------------------------------------------------------------------
// Executable extraction
// ---------------------------------------------------------------------------

/// The characters `s[from..to]`.
fn sub_chars(s: &Vec<char>, from: usize, to: usize) -> (r: Vec<char>)
    requires
        from <= to <= s@.len(),
    ensures
        r@ == s@.subrange(from as int, to as int),
{
    let mut out: Vec<char> = Vec::new();
    let mut k: usize = from;
    while k < to
        invariant
            from <= k <= to <= s@.len(),
            out@ == s@.subrange(from as int, k as int),
        decreases to - k,
    {
        out.push(s[k]);
        proof {
            assert(s@.subrange(from as int, k + 1) =~= s@.subrange(from as int, k as int).push(
                s@[k as int],
            ));
        }
        k = k + 1;
    }
    out
}

pub open spec fn lines_view(v: Seq<Vec<char>>) -> Seq<Seq<char>> {
    v.map_values(|l: Vec<char>| l@)
}

/// Splits `s` into its lines.
fn split_lines(s: &Vec<char>) -> (r: Vec<Vec<char>>)
    ensures
        lines_view(r@) == lines(s@),
{
    let n: usize = s.len();
    let mut out: Vec<Vec<char>> = Vec::new();
    let mut start: usize = 0;
    let mut done: bool = false;
    while !done
        invariant
            n == s@.len(),
            done ==> lines_view(out@) == lines(s@),
            !done ==> start <= n && lines_view(out@) + lines_from(s@, start as int) == lines(s@),
        decreases (if done {
            0
        } else {
            n - start + 1
        }),
    {
        let mut e: usize = start;
        while e < n && s[e] != '\n'
            invariant
                n == s@.len(),
                start <= e <= n,
                find_char(s@, '\n', e as int) == find_char(s@, '\n', start as int),
            decreases n - e,
        {
            e = e + 1;
        }
        proof {
            lemma_find_char_bounds(s@, '\n', start as int);
        }
        let piece = sub_chars(s, start, e);
        let ghost before = out@;
        out.push(piece);
        proof {
            assert(lines_view(out@) =~= lines_view(before).push(piece@));
        }
        if e < n {
            proof {
                assert(lines_view(before) + lines_from(s@, start as int) =~= lines_view(out@)
                    + lines_from(s@, e + 1));
            }
            start = e + 1;
        } else {
            proof {
                assert(lines_view(before) + lines_from(s@, start as int) =~= lines_view(out@));
            }
            done = true;
        }
    }
    out
}

/// Appends the characters of `b` to `out`.
fn push_all(out: &mut Vec<char>, b: &Vec<char>)
    ensures
        final(out)@ == old(out)@ + b@,
{
    let mut more = b.clone();
    proof {
        assert(more@ =~= b@);
    }
    out.append(&mut more);
}

/// The target of a link as a string; empty when there is none.
fn href_string(link: &Option<PageLink>) -> (r: String)
    ensures
        r@ == href_of(opt_link_view(*link)),
{
    match link {
        Some(l) => match &l.href {
            Some(h) => h.clone(),
            None => String::new(),
        },
        None => String::new(),
    }
}

/// The record of a marked-layout row whose title cell is `cell`.
fn marked_item_exec(index: usize, cell: &TableCell) -> (r: Option<SubtitleSearchResultItem>)
    ensures
        opt_item_view(r) == marked_item(index as nat, cell@),
{
    let text = normalize_chars(&chars_of(cell.inner_html.as_str()));
    if text.len() <= 1 {
        return None;
    }
    match &cell.link {
        None => None,
        Some(l) => match &l.text {
            None => None,
            Some(t) => {
                let numbers = bracket_numbers(&text);
                let newline: Vec<char> = vec!['\n'];
                let space: Vec<char> = vec![' '];
                proof {
                    assert(newline@ =~= seq!['\n']);
                    assert(space@ =~= seq![' ']);
                }
                let title_chars = replace_all_exec(&chars_of(t.as_str()), &newline, &space);
                let details_url = href_string(&cell.link);
                Some(
                    SubtitleSearchResultItem {
                        index,
                        title: string_of(title_chars.as_slice()),
                        details_url,
                        season: numbers.0,
                        episode: numbers.1,
                    },
                )
            },
        },
    }
}

/// The record of a positional-layout row whose title cell is `cell`.
fn positional_item_exec(index: usize, cell: &TableCell) -> (r: Option<SubtitleSearchResultItem>)
    ensures
        opt_item_view(r) == positional_item(index as nat, cell@),
{
    let text = normalize_chars(&chars_of(cell.inner_html.as_str()));
    if text.len() <= 1 {
        return None;
    }
    let parts = split_lines(&text);
    let ghost ps = lines(text@);
    proof {
        lemma_lines_nonempty(text@, 0);
        assert(parts@.len() == ps.len());
        assert(parts@[0]@ == ps[0]);
    }
    let year: Vec<char> = if parts.len() > 1 {
        proof {
            assert(parts@[1]@ == ps[1]);
        }
        year_of(&parts[1])
    } else {
        Vec::new()
    };
    let numbers: (u8, u16) = if parts.len() > 2 {
        proof {
            assert(parts@[2]@ == ps[2]);
        }
        bracket_numbers(&parts[2])
    } else {
        (0, 0)
    };
    let mut title_chars = parts[0].clone();
    push_all(&mut title_chars, &vec![' ', '(']);
    push_all(&mut title_chars, &year);
    push_all(&mut title_chars, &vec![')']);
    proof {
        assert(parts[0]@ =~= ps[0]);
        assert(title_chars@ =~= ps[0] + seq![' ', '('] + positional_year(ps) + seq![')']);
    }
    let details_url = href_string(&cell.link);
    Some(
        SubtitleSearchResultItem {
            index,
            title: string_of(title_chars.as_slice()),
            details_url,
            season: numbers.0,
            episode: numbers.1,
        },
    )
}

/// The record of one listing row, numbered `index`; none when the row is skipped.
pub fn item_from_row(index: usize, cells: &Vec<TableCell>, shape: RowShape) -> (r: Option<
    SubtitleSearchResultItem,
>)
    ensures
        opt_item_view(r) == row_item(index as nat, row_view(cells@), shape),
{
    let ghost cv = row_view(cells@);
    match shape {
        RowShape::Marked => {
            let mut i: usize = 0;
            while i < cells.len()
                invariant
                    i <= cells@.len(),
                    cv == row_view(cells@),
                    first_linked_cell(cv, i as int) == first_linked_cell(cv, 0),
                    shape == RowShape::Marked,
                decreases cells@.len() - i,
            {
                proof {
                    assert(cv[i as int] == cells@[i as int]@);
                }
                if cells[i].link.is_some() {
                    return marked_item_exec(index, &cells[i]);
                }
                i = i + 1;
            }
            None
        },
        RowShape::Positional => {
            if cells.len() > 1 {
                proof {
                    assert(cv[1] == cells@[1]@);
                }
                positional_item_exec(index, &cells[1])
            } else {
                None
            }
        },
    }
}

/// The batch of a listing whose rows are `rows`: each usable row gives a
/// record, numbered from 1 in the order the records are kept.
pub fn extract_listing(rows: &Vec<Vec<TableCell>>, shape: RowShape) -> (r: Vec<
    SubtitleSearchResultItem,
>)
    ensures
        items_view(r@) == listing(rows_view(rows@), shape),
{
    let ghost rv = rows_view(rows@);
    let mut out: Vec<SubtitleSearchResultItem> = Vec::new();
    let mut i: usize = 0;
    while i < rows.len()
        invariant
            i <= rows@.len(),
            rv == rows_view(rows@),
            items_view(out@) == listing(rv.take(i as int), shape),
        decreases rows@.len() - i,
    {
        proof {
            lemma_listing_len(rv.take(i as int), shape);
            assert(rv.take(i + 1).drop_last() =~= rv.take(i as int));
            assert(rv.take(i + 1).last() == row_view(rows@[i as int]@));
        }
        let index: usize = out.len() + 1;
        match item_from_row(index, &rows[i], shape) {
            Some(it) => {
                let ghost before = out@;
                out.push(it);
                proof {
                    assert(items_view(out@) =~= items_view(before).push(it@));
                }
            },
            None => {},
        }
        i = i + 1;
    }
    proof {
        assert(rv.take(rows@.len() as int) =~= rv);
    }
    out
}

} // verus!
