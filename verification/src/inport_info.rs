//! Reading the published sheets: CSV text into rows of named cells.
use vstd::prelude::*;
use crate::text::same_text;

verus! {

/// Where the tag sheet ("getikt") is published as CSV.
pub const PUB_DOWNLOAD_URL_SHEET_GETIKT: &'static str = "https://docs.google.com/spreadsheets/d/e/2PACX-1vQG7HcjC0122o9DzbvQk-yLKb_V6omnuf78kIKeqaOsq2-GG_PYO3GzHhm7sN6_oHBBn2sdjPqROo2B/pub?output=csv";

/// Where the player sheet is published as CSV.
pub const PUB_DOWNLOAD_URL_SHEET_WW: &'static str = "https://docs.google.com/spreadsheets/d/e/2PACX-1vTA19ZmwxnFxahu07xl1lf--04UZRY_opXg4kApwn90WrMOU8BauZ-Drs0cDyobG-bQ5wC7F_lykOYJ/pub?output=csv";

/// What the `csv` crate reads from `text` with `has_headers` and `flexible`
/// set as given: the header row (`Reader::headers`) and then every record
/// (`Reader::records`), each as its fields; or the text of the first error.
pub uninterp spec fn csv_table(text: Seq<char>, has_headers: bool, flexible: bool) -> Result<
    (Seq<Seq<char>>, Seq<Seq<Seq<char>>>),
    Seq<char>,
>;

/// What the `csv` crate reads from `text` with `has_headers` and `flexible`
/// set as given, asking for the records only (`Reader::records`), each as its
/// fields; or the text of the first error.
pub uninterp spec fn csv_records(text: Seq<char>, has_headers: bool, flexible: bool) -> Result<
    Seq<Seq<Seq<char>>>,
    Seq<char>,
>;

/// Calls `csv::ReaderBuilder` with the given settings, then `Reader::headers`
/// and `Reader::records` until the first error. Trusted: the result is what
/// `csv_table` names for the arguments (fields and error text converted to
/// `String`); the CSV reading itself is the `csv` crate's. Two facts of it are
/// stated: reading flexibly, text (valid UTF-8, read from memory) never gives
/// an error, since the only other errors are of input, encoding and record
/// length (`ReaderBuilder::flexible`); reading not flexibly, every record has
/// as many fields as the first one read, which is the header row.
#[verifier::external_body]
pub(crate) fn read_csv_table(text: &str, has_headers: bool, flexible: bool) -> (r: Result<
    (Vec<String>, Vec<Vec<String>>),
    String,
>)
    ensures
        match r {
            Ok((h, recs)) => csv_table(text@, has_headers, flexible) == Ok::<
                (Seq<Seq<char>>, Seq<Seq<Seq<char>>>),
                Seq<char>,
            >((h.deep_view(), recs.deep_view())),
            Err(e) => csv_table(text@, has_headers, flexible) == Err::<
                (Seq<Seq<char>>, Seq<Seq<Seq<char>>>),
                Seq<char>,
            >(e@),
        },
        flexible ==> r is Ok,
        (!flexible && r is Ok) ==> forall|k: int|
            0 <= k < r->Ok_0.1@.len() ==> (#[trigger] r->Ok_0.1@[k]).len() == r->Ok_0.0.len(),
{
    let mut rdr = csv::ReaderBuilder::new().has_headers(has_headers).flexible(flexible)
        .from_reader(text.as_bytes());
    let headers: Vec<String> = match rdr.headers() {
        Ok(h) => h.iter().map(|f| f.to_string()).collect(),
        Err(e) => return Err(e.to_string()),
    };
    let recs: Result<Vec<Vec<String>>, csv::Error> = rdr.records().map(
        |rec| rec.map(|fields| fields.iter().map(|f| f.to_string()).collect()),
    ).collect();
    match recs {
        Ok(recs) => Ok((headers, recs)),
        Err(e) => Err(e.to_string()),
    }
}

/// Calls `csv::ReaderBuilder` with the given settings, then `Reader::records`
/// until the first error. Trusted: the result is what `csv_records` names for
/// the arguments (fields and error text converted to `String`); the CSV
/// reading itself is the `csv` crate's. One fact of it is stated: reading
/// flexibly, text (valid UTF-8, read from memory) never gives an error, since
/// the only other errors are of input, encoding and record length
/// (`ReaderBuilder::flexible`).
#[verifier::external_body]
pub(crate) fn read_csv_records(text: &str, has_headers: bool, flexible: bool) -> (r: Result<
    Vec<Vec<String>>,
    String,
>)
    ensures
        match r {
            Ok(recs) => csv_records(text@, has_headers, flexible) == Ok::<
                Seq<Seq<Seq<char>>>,
                Seq<char>,
            >(recs.deep_view()),
            Err(e) => csv_records(text@, has_headers, flexible) == Err::<
                Seq<Seq<Seq<char>>>,
                Seq<char>,
            >(e@),
        },
        flexible ==> r is Ok,
{
    let mut rdr = csv::ReaderBuilder::new().has_headers(has_headers).flexible(flexible)
        .from_reader(text.as_bytes());
    let recs: Result<Vec<Vec<String>>, csv::Error> = rdr.records().map(
        |rec| rec.map(|fields| fields.iter().map(|f| f.to_string()).collect()),
    ).collect();
    match recs {
        Ok(recs) => Ok(recs),
        Err(e) => Err(e.to_string()),
    }
}

/// One row of a sheet: each column's header with the row's value under it.
pub struct SheetRow {
    pub cells: Vec<(String, String)>,
}

/// The cells of a row as (header, value) texts.
pub open spec fn cells_view(cells: Seq<(String, String)>) -> Seq<(Seq<char>, Seq<char>)> {
    cells.map_values(|c: (String, String)| (c.0@, c.1@))
}

impl View for SheetRow {
    type V = Seq<(Seq<char>, Seq<char>)>;

    open spec fn view(&self) -> Seq<(Seq<char>, Seq<char>)> {
        cells_view(self.cells@)
    }
}

/// The value under `key` in a row built by inserting its cells in order into
/// a map, so that a later cell with the same header wins.
pub open spec fn cell_lookup(cells: Seq<(Seq<char>, Seq<char>)>, key: Seq<char>) -> Option<
    Seq<char>,
>
    decreases cells.len(),
{
    if cells.len() == 0 {
        None
    } else if cells.last().0 == key {
        Some(cells.last().1)
    } else {
        cell_lookup(cells.drop_last(), key)
    }
}

/// The value under `key`, or `default` where the row has no such column.
pub open spec fn cell_or(cells: Seq<(Seq<char>, Seq<char>)>, key: Seq<char>, default: Seq<char>) -> Seq<char> {
    match cell_lookup(cells, key) {
        Some(v) => v,
        None => default,
    }
}

impl SheetRow {
    /// The value under the column `key` (the last such column, if several).
    pub fn get(&self, key: &str) -> (r: Option<&String>)
        ensures
            match r {
                Some(v) => cell_lookup(self@, key@) == Some(v@),
                None => cell_lookup(self@, key@) is None,
            },
    {
        let mut i: usize = self.cells.len();
        assert(self@.subrange(0, i as int) =~= self@);
        while i > 0
            invariant
                i <= self.cells@.len(),
                cell_lookup(self@, key@) == cell_lookup(self@.subrange(0, i as int), key@),
            decreases i,
        {
            let ghost pre = self@.subrange(0, i as int);
            assert(pre.last() == (self.cells@[i - 1].0@, self.cells@[i - 1].1@));
            if same_text(self.cells[i - 1].0.as_str(), key) {
                return Some(&self.cells[i - 1].1);
            }
            assert(pre.drop_last() =~= self@.subrange(0, i - 1));
            i -= 1;
        }
        None
    }

    /// The value under the column `key` as a new text, or `default`.
    pub fn value_or(&self, key: &str, default: &str) -> (r: String)
        ensures
            r@ == cell_or(self@, key@, default@),
    {
        match self.get(key) {
            Some(v) => v.clone(),
            None => default.to_owned(),
        }
    }
}

/// A record paired with the header row, column by column, as far as both go.
pub open spec fn zip_cells(headers: Seq<Seq<char>>, record: Seq<Seq<char>>) -> Seq<
    (Seq<char>, Seq<char>),
> {
    Seq::new(
        if headers.len() <= record.len() { headers.len() } else { record.len() },
        |j: int| (headers[j], record[j]),
    )
}

/// The rows that `read_sheet_dynamic` gives for a sheet's CSV text: every
/// record after the header row, paired with the headers; or the error text.
pub open spec fn sheet_rows(text: Seq<char>) -> Result<Seq<Seq<(Seq<char>, Seq<char>)>>, Seq<char>> {
    match csv_table(text, true, false) {
        Ok((h, recs)) => Ok(recs.map_values(|r: Seq<Seq<char>>| zip_cells(h, r))),
        Err(e) => Err(e),
    }
}

/// A row holds one cell under each header, in the headers' order.
pub open spec fn row_has_headers(row: Seq<(Seq<char>, Seq<char>)>, headers: Seq<Seq<char>>) -> bool {
    &&& row.len() == headers.len()
    &&& forall|j: int| 0 <= j < headers.len() ==> (#[trigger] row[j]).0 == headers[j]
}

/// The views of a list of rows.
pub open spec fn rows_view(rows: Seq<SheetRow>) -> Seq<Seq<(Seq<char>, Seq<char>)>> {
    rows.map_values(|r: SheetRow| r@)
}

/// Reads a sheet with a header row: each record becomes a row of
/// (header, value) cells, one under every header. The error is the CSV
/// reader's.
pub fn read_sheet_dynamic(text_file: &str) -> (r: Result<Vec<SheetRow>, String>)
    ensures
        match r {
            Ok(rows) => sheet_rows(text_file@) is Ok && rows_view(rows@) == sheet_rows(
                text_file@,
            )->Ok_0,
            Err(e) => sheet_rows(text_file@) == Err::<
                Seq<Seq<(Seq<char>, Seq<char>)>>,
                Seq<char>,
            >(e@),
        },
        r is Ok ==> csv_table(text_file@, true, false) is Ok && forall|k: int|
            0 <= k < r->Ok_0@.len() ==> row_has_headers(
                #[trigger] r->Ok_0@[k]@,
                csv_table(text_file@, true, false)->Ok_0.0,
            ),
{
    let table = read_csv_table(text_file, true, false);
    let (headers, recs) = match table {
        Ok(t) => t,
        Err(e) => return Err(e),
    };
    let rows = rows_from_table(&headers, &recs);
    let ghost hv = headers.deep_view();
    let ghost rv = recs.deep_view();
    assert(rows_view(rows@).len() == rv.len());
    assert forall|m: int| 0 <= m < rows@.len() implies row_has_headers(#[trigger] rows@[m]@, hv) by {
        assert(rows_view(rows@)[m] == rows@[m]@);
        assert(recs@[m].len() == headers.len());
        assert(rv[m].len() == hv.len());
    }
    Ok(rows)
}

/// The rows of a sheet whose header row is `headers` and whose records are
/// `recs`: each record paired with the headers, column by column, as far as
/// both go.
pub fn rows_from_table(headers: &Vec<String>, recs: &Vec<Vec<String>>) -> (rows: Vec<SheetRow>)
    ensures
        rows_view(rows@) == recs.deep_view().map_values(
            |r: Seq<Seq<char>>| zip_cells(headers.deep_view(), r),
        ),
{
    let ghost hv = headers.deep_view();
    let ghost rv = recs.deep_view();
    let mut rows: Vec<SheetRow> = Vec::new();
    let mut k: usize = 0;
    while k < recs.len()
        invariant
            hv == headers.deep_view(),
            rv == recs.deep_view(),
            k <= recs.len(),
            rows@.len() == k,
            forall|m: int| 0 <= m < k ==> #[trigger] rows@[m]@ == zip_cells(hv, rv[m]),
        decreases recs.len() - k,
    {
        let rec = &recs[k];
        let mut cells: Vec<(String, String)> = Vec::new();
        let mut j: usize = 0;
        while j < headers.len() && j < rec.len()
            invariant
                hv == headers.deep_view(),
                rv == recs.deep_view(),
                k < recs.len(),
                rec == recs@[k as int],
                j <= headers.len(),
                j <= rec.len(),
                cells@.len() == j,
                forall|m: int| 0 <= m < j ==> (#[trigger] cells@[m]).0@ == hv[m] && cells@[m].1@ == rv[k as int][m],
            decreases headers.len() - j,
        {
            cells.push((headers[j].clone(), rec[j].clone()));
            j += 1;
        }
        let row = SheetRow { cells };
        assert(row@ =~= zip_cells(hv, rv[k as int]));
        rows.push(row);
        k += 1;
    }
    assert(rows_view(rows@) =~= rv.map_values(|r: Seq<Seq<char>>| zip_cells(hv, r)));
    rows
}

} // verus!
