use vstd::prelude::*;
use vstd::string::{StrSliceExecFns, StringExecFns};
use crate::store::{recs_of, Record, RecordView};

verus! {

/// What `textwrap::fill` returns: `text` wrapped to lines of at most
/// `width` columns, joined with newlines.  The result is a function of
/// the two arguments alone and is not spelled out here.
pub uninterp spec fn wrapped_text(text: Seq<char>, width: int) -> Seq<char>;

/// Relies on `textwrap::fill`: wraps `text` to the given width.  The
/// result depends on `text` and `width` alone.
#[verifier::external_body]
fn fill_text(text: &str, width: usize) -> (r: String)
    ensures
        r@ == wrapped_text(text@, width as int),
{
    textwrap::fill(text, width)
}

/// The length in characters of the longest id; zero for an empty collection.
pub open spec fn spec_id_max_width(s: Seq<RecordView>) -> nat
    decreases s.len(),
{
    if s.len() == 0 {
        0
    } else {
        let rest = spec_id_max_width(s.drop_last());
        let last = s.last().id.len();
        if last > rest {
            last
        } else {
            rest
        }
    }
}

/// The length in characters of the longest author; zero for an empty collection.
pub open spec fn spec_author_max_width(s: Seq<RecordView>) -> nat
    decreases s.len(),
{
    if s.len() == 0 {
        0
    } else {
        let rest = spec_author_max_width(s.drop_last());
        let last = s.last().quote.author.len();
        if last > rest {
            last
        } else {
            rest
        }
    }
}

/// The column width quote text is wrapped to: the terminal width minus the
/// space reserved for the other columns and the table padding, clamped to
/// at least one column.
pub open spec fn spec_wrap_width(
    term_width: int,
    id_width: int,
    author_width: int,
    long_format: bool,
) -> int {
    let reserved: int = if long_format {
        id_width + author_width + 8
    } else {
        author_width + 5
    };
    if term_width - reserved > 0 {
        term_width - reserved
    } else {
        1
    }
}

/// The length in characters of the longest id in the listing.
pub fn id_max_width(records: &Vec<Record>) -> (w: usize)
    ensures
        w == spec_id_max_width(recs_of(records@)),
{
    let ghost s = recs_of(records@);
    let mut w: usize = 0;
    let mut i: usize = 0;
    while i < records.len()
        invariant
            i <= records@.len(),
            s == recs_of(records@),
            w == spec_id_max_width(s.take(i as int)),
        decreases records@.len() - i,
    {
        let l = records[i].id.as_str().unicode_len();
        if l > w {
            w = l;
        }
        proof {
            assert(s.take(i + 1).drop_last() =~= s.take(i as int));
            assert(s.take(i + 1).last() == s[i as int]);
        }
        i = i + 1;
    }
    proof {
        assert(s.take(records@.len() as int) =~= s);
    }
    w
}

/// The length in characters of the longest author in the listing.
pub fn author_max_width(records: &Vec<Record>) -> (w: usize)
    ensures
        w == spec_author_max_width(recs_of(records@)),
{
    let ghost s = recs_of(records@);
    let mut w: usize = 0;
    let mut i: usize = 0;
    while i < records.len()
        invariant
            i <= records@.len(),
            s == recs_of(records@),
            w == spec_author_max_width(s.take(i as int)),
        decreases records@.len() - i,
    {
        let l = records[i].quote.author.as_str().unicode_len();
        if l > w {
            w = l;
        }
        proof {
            assert(s.take(i + 1).drop_last() =~= s.take(i as int));
            assert(s.take(i + 1).last() == s[i as int]);
        }
        i = i + 1;
    }
    proof {
        assert(s.take(records@.len() as int) =~= s);
    }
    w
}

/// The wrap width for quote text; never less than one column, however
/// little room the other columns leave.
pub fn wrap_width(term_width: usize, id_width: usize, author_width: usize, long_format: bool) -> (w:
    usize)
    ensures
        w >= 1,
        w as int == spec_wrap_width(
            term_width as int,
            id_width as int,
            author_width as int,
            long_format,
        ),
{
    if long_format {
        if term_width > id_width && term_width - id_width > author_width && term_width - id_width
            - author_width > 8 {
            term_width - id_width - author_width - 8
        } else {
            1
        }
    } else {
        if term_width > author_width && term_width - author_width > 5 {
            term_width - author_width - 5
        } else {
            1
        }
    }
}

/// A rendered table: one header cell per column and one row of cells per
/// record, every cell a plain string.
pub struct QuoteTable {
    pub header: Vec<String>,
    pub rows: Vec<Vec<String>>,
}

/// The cells of one data row: id (in long format only), author, wrapped
/// quote text.
pub open spec fn spec_row(rv: RecordView, width: int, long_format: bool) -> Seq<Seq<char>> {
    if long_format {
        seq![rv.id, rv.quote.author, wrapped_text(rv.quote.quote, width)]
    } else {
        seq![rv.quote.author, wrapped_text(rv.quote.quote, width)]
    }
}

/// All data rows for a collection, each quote wrapped to the width left by
/// the collection's column widths and the terminal width.
pub open spec fn spec_table_rows(s: Seq<RecordView>, term_width: int, long_format: bool) -> Seq<
    Seq<Seq<char>>,
> {
    let width = spec_wrap_width(
        term_width,
        spec_id_max_width(s) as int,
        spec_author_max_width(s) as int,
        long_format,
    );
    Seq::new(s.len(), |i: int| spec_row(s[i], width, long_format))
}

/// Renders the collection as an aligned table: bold-ready header cells and
/// one row per record, in the order given (ascending id when the records
/// come from the store), each quote wrapped to fit the terminal.
pub fn format_table(records: &Vec<Record>, long_format: bool, term_width: usize) -> (t: QuoteTable)
    ensures
        t.header@.len() == (if long_format {
            3int
        } else {
            2int
        }),
        long_format ==> t.header@[0]@ == "QUOTE_ID"@ && t.header@[1]@ == "Author"@
            && t.header@[2]@ == "Quote"@,
        !long_format ==> t.header@[0]@ == "Author"@ && t.header@[1]@ == "Quote"@,
        t.rows.deep_view() == spec_table_rows(recs_of(records@), term_width as int, long_format),
{
    let ghost s = recs_of(records@);
    let id_w = id_max_width(records);
    let author_w = author_max_width(records);
    let width = wrap_width(term_width, id_w, author_w, long_format);
    let ghost w = spec_wrap_width(
        term_width as int,
        spec_id_max_width(s) as int,
        spec_author_max_width(s) as int,
        long_format,
    );
    let mut header: Vec<String> = Vec::new();
    if long_format {
        header.push(String::from_str("QUOTE_ID"));
    }
    header.push(String::from_str("Author"));
    header.push(String::from_str("Quote"));
    let mut rows: Vec<Vec<String>> = Vec::new();
    let mut i: usize = 0;
    while i < records.len()
        invariant
            i <= records@.len(),
            s == recs_of(records@),
            width as int == w,
            rows.deep_view() =~= Seq::new(i as nat, |j: int| spec_row(s[j], w, long_format)),
        decreases records@.len() - i,
    {
        let mut row: Vec<String> = Vec::new();
        if long_format {
            row.push(records[i].id.clone());
        }
        row.push(records[i].quote.author.clone());
        row.push(fill_text(records[i].quote.quote.as_str(), width));
        let ghost rowv = row.deep_view();
        proof {
            assert(rowv =~= spec_row(s[i as int], w, long_format));
        }
        let ghost rowspre = rows.deep_view();
        let ghost rowsvecpre = rows@;
        rows.push(row);
        proof {
            assert(rows@ == rowsvecpre.push(row));
            assert(rowspre.len() == rowsvecpre.len());
            assert(rowspre.len() == i as int);
            assert(rows@.len() == i + 1);
            assert forall|j: int| 0 <= j <= i implies rows.deep_view()[j] == spec_row(
                s[j],
                w,
                long_format,
            ) by {
                assert(rows.deep_view()[j] == rows@[j].deep_view());
                if j < i {
                    assert(rows@[j] == rowsvecpre[j]);
                    assert(rowspre[j] == rowsvecpre[j].deep_view());
                    assert(rowspre[j] == spec_row(s[j], w, long_format));
                } else {
                    assert(rows@[j] == row);
                }
            }
            assert(rows.deep_view() =~= Seq::new(
                (i + 1) as nat,
                |j: int| spec_row(s[j], w, long_format),
            ));
        }
        i = i + 1;
    }
    proof {
        assert(Seq::new(records@.len(), |j: int| spec_row(s[j], w, long_format))
            =~= spec_table_rows(s, term_width as int, long_format));
    }
    QuoteTable { header, rows }
}

} // verus!
