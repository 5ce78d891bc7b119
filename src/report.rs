//! The Markdown report: a title, the source folder, and a table with one
//! row per classified image and one column per label.
use crate::order::{sort_by_path, sorted_by_path};
use crate::labels::{all_labels, Classifications, HashableMetric};
use crate::text::{dec, digit, lemma_dec_digits, push_decimal, push_digit, push_str, string_of};
use crate::triage::FileResult;
use vstd::prelude::*;

verus! {

/// A score of `p` millionths as a percentage with two decimals, rounded
/// half up: 900000 gives `90.00%`.
pub open spec fn percent_text(p: nat) -> Seq<char> {
    let h = (p + 50) / 100;
    dec(h / 100) + seq!['.', digit((h % 100) / 10), digit(h % 10), '%']
}

/// The cell of one label: its percentage, or `-` where it has no score.
pub open spec fn cell_text(s: Option<u32>) -> Seq<char> {
    match s {
        Some(p) => percent_text(p as nat),
        None => seq!['-'],
    }
}

/// The cells of `labels`, each followed by ` |`.
pub open spec fn cells_text(c: Classifications, labels: Seq<HashableMetric>) -> Seq<char>
    decreases labels.len(),
{
    if labels.len() == 0 {
        Seq::empty()
    } else {
        cells_text(c, labels.drop_last()) + seq![' '] + cell_text(c.score(labels.last())) + seq![' ', '|']
    }
}

/// The table row of one classified image.
pub open spec fn row_text(r: FileResult) -> Seq<char> {
    seq!['|', ' '] + r.path@ + seq![' ', '|'] + cells_text(r.classifications, all_labels()) + seq!['\n']
}

/// The rows of `rows`, one each, in order.
pub open spec fn rows_text(rows: Seq<FileResult>) -> Seq<char> {
    Seq::new(rows.len(), |i: int| row_text(rows[i])).flatten()
}

/// The table's header and separator lines.
pub open spec fn table_head() -> Seq<char> {
    "| File | Drawings | Hentai | Neutral | Porn | Sexy |\n| --- | --- | --- | --- | --- | --- |\n"@
}

/// The whole report on `rows`, found under `source_folder`.
pub open spec fn report_text(source_folder: Seq<char>, rows: Seq<FileResult>) -> Seq<char> {
    "# NSFW Report\n\n## Source Folder: "@ + source_folder + "\n\n"@ + if rows.len() == 0 {
        Seq::empty()
    } else {
        table_head() + rows_text(rows)
    }
}

/// Appends the percentage of a score of `p` millionths.
pub fn push_percent(v: &mut Vec<char>, p: u32)
    ensures
        final(v)@ == old(v)@ + percent_text(p as nat),
{
    let h: u64 = (p as u64 + 50) / 100;
    push_decimal(v, h / 100);
    v.push('.');
    push_digit(v, (h % 100) / 10);
    push_digit(v, h % 10);
    v.push('%');
    assert(v@ =~= old(v)@ + percent_text(p as nat));
}

/// Appends the row of `r`.
pub fn push_row(v: &mut Vec<char>, r: &FileResult)
    ensures
        final(v)@ == old(v)@ + row_text(*r),
{
    v.push('|');
    v.push(' ');
    push_str(v, r.path.as_str());
    v.push(' ');
    v.push('|');
    let labels = HashableMetric::all();
    let ghost start = v@;
    let mut i: usize = 0;
    while i < labels.len()
        invariant
            i <= labels@.len(),
            labels@ == all_labels(),
            v@ == start + cells_text(r.classifications, labels@.subrange(0, i as int)),
        decreases labels@.len() - i,
    {
        let ghost before = v@;
        v.push(' ');
        match r.classifications.get(labels[i]) {
            Some(p) => push_percent(v, p),
            None => v.push('-'),
        }
        v.push(' ');
        v.push('|');
        proof {
            let next = labels@.subrange(0, i + 1);
            assert(next.drop_last() =~= labels@.subrange(0, i as int));
            assert(v@ =~= before + seq![' '] + cell_text(r.classifications.score(labels@[i as int])) + seq![' ', '|']);
            assert(v@ =~= start + cells_text(r.classifications, next));
        }
        i += 1;
    }
    assert(labels@.subrange(0, labels@.len() as int) =~= labels@);
    v.push('\n');
    assert(v@ =~= old(v)@ + row_text(*r));
}

/// Renders the report on `results`, in their order, found under
/// `source_folder`: the title and folder lines, then, where there is any
/// result, the table head and one row per result.
pub fn render_report(source_folder: &str, results: &Vec<FileResult>) -> (r: String)
    ensures
        r@ == report_text(source_folder@, results@),
{
    let mut v: Vec<char> = Vec::new();
    push_str(&mut v, "# NSFW Report\n\n## Source Folder: ");
    push_str(&mut v, source_folder);
    push_str(&mut v, "\n\n");
    if results.len() > 0 {
        push_str(&mut v, "| File | Drawings | Hentai | Neutral | Porn | Sexy |\n| --- | --- | --- | --- | --- | --- |\n");
        let ghost start = v@;
        let mut i: usize = 0;
        while i < results.len()
            invariant
                i <= results@.len(),
                v@ == start + Seq::new(i as nat, |j: int| row_text(results@[j])).flatten_alt(),
            decreases results@.len() - i,
        {
            push_row(&mut v, &results[i]);
            proof {
                let rows = Seq::new((i + 1) as nat, |j: int| row_text(results@[j]));
                assert(rows.drop_last() =~= Seq::new(i as nat, |j: int| row_text(results@[j])));
                assert(v@ =~= start + rows.flatten_alt());
            }
            i += 1;
        }
        proof {
            let rows = Seq::new(results@.len(), |j: int| row_text(results@[j]));
            rows.lemma_flatten_and_flatten_alt_are_equivalent();
        }
    }
    assert(v@ =~= report_text(source_folder@, results@));
    string_of(&v)
}

/// Renders the report on `results` with its rows in path order.
pub fn markdown_report(source_folder: &str, results: &Vec<FileResult>) -> (r: String)
    ensures
        exists|rows: Seq<FileResult>|
            sorted_by_path(rows) && rows.to_multiset() == results@.to_multiset() && r@ == report_text(
                source_folder@,
                rows,
            ),
{
    let rows = sort_by_path(results);
    render_report(source_folder, &rows)
}

/// The number of line breaks in `s`.
pub open spec fn line_breaks(s: Seq<char>) -> nat
    decreases s.len(),
{
    if s.len() == 0 {
        0
    } else {
        line_breaks(s.drop_last()) + if s.last() == '\n' { 1nat } else { 0nat }
    }
}

pub proof fn lemma_line_breaks_add(a: Seq<char>, b: Seq<char>)
    ensures
        line_breaks(a + b) == line_breaks(a) + line_breaks(b),
    decreases b.len(),
{
    if b.len() > 0 {
        assert((a + b).drop_last() =~= a + b.drop_last());
        lemma_line_breaks_add(a, b.drop_last());
    } else {
        assert(a + b =~= a);
    }
}

pub proof fn lemma_no_line_breaks(s: Seq<char>)
    requires
        forall|i: int| 0 <= i < s.len() ==> s[i] != '\n',
    ensures
        line_breaks(s) == 0,
    decreases s.len(),
{
    if s.len() > 0 {
        lemma_no_line_breaks(s.drop_last());
    }
}

pub proof fn lemma_cells_one_line(c: Classifications, labels: Seq<HashableMetric>)
    ensures
        line_breaks(cells_text(c, labels)) == 0,
    decreases labels.len(),
{
    if labels.len() > 0 {
        let cell = cell_text(c.score(labels.last()));
        if let Some(p) = c.score(labels.last()) {
            let h = (p as nat + 50) / 100;
            lemma_dec_digits(h / 100);
            lemma_line_breaks_add(dec(h / 100), seq!['.', digit((h % 100) / 10), digit(h % 10), '%']);
            lemma_no_line_breaks(dec(h / 100));
            lemma_no_line_breaks(seq!['.', digit((h % 100) / 10), digit(h % 10), '%']);
        } else {
            lemma_no_line_breaks(cell);
        }
        lemma_cells_one_line(c, labels.drop_last());
        let front = cells_text(c, labels.drop_last());
        lemma_line_breaks_add(front, seq![' ']);
        lemma_line_breaks_add(front + seq![' '], cell);
        lemma_line_breaks_add(front + seq![' '] + cell, seq![' ', '|']);
        lemma_no_line_breaks(seq![' ']);
        lemma_no_line_breaks(seq![' ', '|']);
    }
}

/// Where `r`'s path holds no line break, its row is one line: its only line
/// break ends it.
pub proof fn lemma_row_one_line(r: FileResult)
    requires
        forall|i: int| 0 <= i < r.path@.len() ==> r.path@[i] != '\n',
    ensures
        line_breaks(row_text(r)) == 1,
        row_text(r).last() == '\n',
{
    let cells = cells_text(r.classifications, all_labels());
    lemma_cells_one_line(r.classifications, all_labels());
    lemma_no_line_breaks(r.path@);
    lemma_no_line_breaks(seq!['|', ' ']);
    lemma_no_line_breaks(seq![' ', '|']);
    lemma_line_breaks_add(seq!['|', ' '], r.path@);
    lemma_line_breaks_add(seq!['|', ' '] + r.path@, seq![' ', '|']);
    lemma_line_breaks_add(seq!['|', ' '] + r.path@ + seq![' ', '|'], cells);
    lemma_line_breaks_add(seq!['|', ' '] + r.path@ + seq![' ', '|'] + cells, seq!['\n']);
    assert(line_breaks(seq!['\n']) == 1) by {
        assert(seq!['\n'].drop_last() =~= Seq::<char>::empty());
        assert(line_breaks(Seq::<char>::empty()) == 0);
        assert(seq!['\n'].last() == '\n');
    }
}

/// The table of a report holds one row for each classified image and no
/// other: its rows are the rows of the results, once each and in order, and
/// where no path holds a line break they are exactly as many lines as there
/// are results.
pub proof fn lemma_one_row_per_result(rows: Seq<FileResult>)
    requires
        forall|k: int, i: int| 0 <= k < rows.len() && 0 <= i < rows[k].path@.len() ==> #[trigger] rows[k].path@[i] != '\n',
    ensures
        rows_text(rows) == Seq::new(rows.len(), |k: int| row_text(rows[k])).flatten(),
        line_breaks(rows_text(rows)) == rows.len(),
    decreases rows.len(),
{
    let lines = Seq::new(rows.len(), |k: int| row_text(rows[k]));
    lines.lemma_flatten_and_flatten_alt_are_equivalent();
    if rows.len() > 0 {
        let front = rows.drop_last();
        lemma_one_row_per_result(front);
        let front_lines = Seq::new(front.len(), |k: int| row_text(front[k]));
        assert(lines.drop_last() =~= front_lines);
        front_lines.lemma_flatten_and_flatten_alt_are_equivalent();
        lemma_row_one_line(rows.last());
        lemma_line_breaks_add(front_lines.flatten_alt(), row_text(rows.last()));
    }
}

} // verus!
