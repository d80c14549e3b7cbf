use vstd::prelude::*;

verus! {

#[verifier::external_type_specification]
#[verifier::external_body]
pub struct ExCsvError(csv::Error);

/// The characters of each string.
pub open spec fn texts(v: Seq<String>) -> Seq<Seq<char>> {
    v.map_values(|s: String| s@)
}

/// The characters of each field of each record.
pub open spec fn record_texts(v: Seq<Vec<String>>) -> Seq<Seq<Seq<char>>> {
    v.map_values(|r: Vec<String>| texts(r@))
}

/// What csv reads from a text: the header record's fields and the fields of
/// each later record, in order; `None` where the text is not well-formed.
pub uninterp spec fn csv_table(text: Seq<char>) -> Option<(Seq<Seq<char>>, Seq<Seq<Seq<char>>>)>;

/// Relies on csv's `Reader` with a header record and records of any length:
/// `headers` yields the first record's fields (none where the text holds no
/// record) and `records` each later record's fields, in order; reading
/// malformed text fails. The outcome depends on the text alone.
#[verifier::external_body]
fn read_table(content: &str) -> (r: Result<(Vec<String>, Vec<Vec<String>>), csv::Error>)
    ensures
        match r {
            Ok((h, rows)) => csv_table(content@) == Some((texts(h@), record_texts(rows@))),
            Err(_) => csv_table(content@) is None,
        },
{
    let mut reader = csv::ReaderBuilder::new().flexible(true).from_reader(content.as_bytes());
    let header: Vec<String> = reader.headers()?.iter().map(String::from).collect();
    let mut rows: Vec<Vec<String>> = Vec::new();
    for record in reader.records() {
        rows.push(record?.iter().map(String::from).collect());
    }
    Ok((header, rows))
}

/// Why a text could not be read as a table.
#[derive(Debug)]
pub enum ParseError {
    /// The text is not well-formed delimited text.
    Csv(csv::Error),
    /// The text holds no record at all, so there is no header.
    NoHeader,
}

/// The field of `row` at column `i`, or `None` where the record is short.
pub open spec fn cell_of(row: Seq<Seq<char>>, i: int) -> Option<Seq<char>> {
    if i < row.len() {
        Some(row[i])
    } else {
        None
    }
}

/// The columns of a table `width` fields wide: column `i` holds, for each
/// record in order, the record's field `i` or `None` where it has none.
/// Fields past `width` are ignored.
pub open spec fn columns_of(width: nat, rows: Seq<Seq<Seq<char>>>) -> Seq<
    Seq<Option<Seq<char>>>,
> {
    Seq::new(width, |i: int| Seq::new(rows.len(), |r: int| cell_of(rows[r], i)))
}

pub open spec fn cell_text(c: Option<String>) -> Option<Seq<char>> {
    match c {
        Some(s) => Some(s@),
        None => None,
    }
}

pub open spec fn column_texts(c: Seq<Option<String>>) -> Seq<Option<Seq<char>>> {
    c.map_values(|o: Option<String>| cell_text(o))
}

/// The characters of each cell of each column.
pub open spec fn cell_texts(cols: Seq<Vec<Option<String>>>) -> Seq<Seq<Option<Seq<char>>>> {
    cols.map_values(|c: Vec<Option<String>>| column_texts(c@))
}

/// Column `i` of the records: field `i` of each record, `None` where a record
/// is short.
pub fn column_from_records(records: &Vec<Vec<String>>, i: usize) -> (r: Vec<Option<String>>)
    ensures
        column_texts(r@) == Seq::new(
            records@.len(),
            |k: int| cell_of(texts(records@[k]@), i as int),
        ),
{
    let mut col: Vec<Option<String>> = Vec::new();
    let mut k: usize = 0;
    while k < records.len()
        invariant
            k <= records.len(),
            col@.len() == k,
            column_texts(col@) =~= Seq::new(
                k as nat,
                |t: int| cell_of(texts(records@[t]@), i as int),
            ),
        decreases records.len() - k,
    {
        let ghost before = col@;
        let row = &records[k];
        if i < row.len() {
            col.push(Some(row[i].clone()));
        } else {
            col.push(None);
        }
        assert forall|t: int| 0 <= t < k + 1 implies #[trigger] column_texts(col@)[t] == cell_of(
            texts(records@[t]@),
            i as int,
        ) by {
            if t < k {
                assert(col@[t] == before[t]);
                assert(column_texts(before)[t] == cell_of(texts(records@[t]@), i as int));
            }
        }
        k += 1;
    }
    col
}

/// Splits records into `width` columns aligned by record.
pub fn columns_from_records(width: usize, records: &Vec<Vec<String>>) -> (r: Vec<
    Vec<Option<String>>,
>)
    ensures
        cell_texts(r@) == columns_of(width as nat, record_texts(records@)),
{
    let mut cols: Vec<Vec<Option<String>>> = Vec::new();
    let mut i: usize = 0;
    while i < width
        invariant
            i <= width,
            cols@.len() == i,
            cell_texts(cols@) =~= columns_of(i as nat, record_texts(records@)),
        decreases width - i,
    {
        let col = column_from_records(records, i);
        let ghost before = cols@;
        proof {
            let rt = record_texts(records@);
            assert(column_texts(col@) =~= Seq::new(rt.len(), |r: int| cell_of(rt[r], i as int)));
        }
        cols.push(col);
        assert forall|t: int| 0 <= t < i + 1 implies #[trigger] cell_texts(cols@)[t] == columns_of(
            (i + 1) as nat,
            record_texts(records@),
        )[t] by {
            if t < i {
                assert(cols@[t] == before[t]);
                assert(cell_texts(before)[t] == columns_of(i as nat, record_texts(records@))[t]);
            }
        }
        i += 1;
    }
    cols
}

/// Reads a text as a table: the header's fields name the columns, and each
/// later record gives one cell to every column, `None` where it is short.
pub fn parse_csv_to_columns(content: &str) -> (r: Result<
    (Vec<String>, Vec<Vec<Option<String>>>),
    ParseError,
>)
    ensures
        match csv_table(content@) {
            None => r matches Err(ParseError::Csv(_)),
            Some((h, rows)) => if h.len() == 0 {
                r matches Err(ParseError::NoHeader)
            } else {
                r matches Ok((names, cols)) && texts(names@) == h && cell_texts(cols@)
                    == columns_of(h.len(), rows)
            },
        },
{
    match read_table(content) {
        Err(e) => Err(ParseError::Csv(e)),
        Ok((header, records)) => {
            if header.len() == 0 {
                Err(ParseError::NoHeader)
            } else {
                let cols = columns_from_records(header.len(), &records);
                Ok((header, cols))
            }
        },
    }
}

/// Changing one field of one record changes that one cell of the columns and
/// nothing else.
pub proof fn lemma_field_changes_one_cell(
    width: nat,
    rows: Seq<Seq<Seq<char>>>,
    r: int,
    j: int,
    field: Seq<char>,
)
    requires
        0 <= r < rows.len(),
        0 <= j < rows[r].len(),
        j < width,
    ensures
        ({
            let changed = columns_of(width, rows.update(r, rows[r].update(j, field)));
            let cols = columns_of(width, rows);
            &&& changed.len() == cols.len()
            &&& forall|i: int| 0 <= i < width && i != j ==> #[trigger] changed[i] == cols[i]
            &&& changed[j] == cols[j].update(r, Some(field))
        }),
{
    let rows2 = rows.update(r, rows[r].update(j, field));
    let changed = columns_of(width, rows2);
    let cols = columns_of(width, rows);
    assert forall|i: int| 0 <= i < width && i != j implies #[trigger] changed[i] == cols[i] by {
        assert(changed[i] =~= cols[i]);
    }
    assert(changed[j] =~= cols[j].update(r, Some(field)));
}

} // verus!
