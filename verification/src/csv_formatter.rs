use vstd::prelude::*;
use crate::constants::{
    lemma_order_labels_differ, order_option_text, order_option_to_string, OrderOption,
};
use crate::insertion_order_map::InsertionOrderMap;
use crate::text::{decimal_text, u64_decimal};

verus! {

/// Characters that make the CSV writer put a field in quotes.
pub open spec fn is_csv_special(c: char) -> bool {
    c == ',' || c == '"' || c == '\r' || c == '\n'
}

/// A field has to be quoted when it holds a special character.
pub open spec fn needs_quotes(field: Seq<char>) -> bool {
    exists|i: int| 0 <= i < field.len() && is_csv_special(#[trigger] field[i])
}

/// `field` with every `"` written twice.
pub open spec fn doubled_quotes(field: Seq<char>) -> Seq<char>
    decreases field.len(),
{
    if field.len() == 0 {
        seq![]
    } else if field.last() == '"' {
        doubled_quotes(field.drop_last()) + seq!['"', '"']
    } else {
        doubled_quotes(field.drop_last()).push(field.last())
    }
}

/// One field as written: quoted, with inner quotes doubled, when needed.
pub open spec fn csv_field(field: Seq<char>) -> Seq<char> {
    if needs_quotes(field) {
        seq!['"'] + doubled_quotes(field) + seq!['"']
    } else {
        field
    }
}

/// The text of a quoted field's inside: each pair of quotes reads as one.
pub open spec fn undoubled(t: Seq<char>) -> Seq<char>
    decreases t.len(),
{
    if t.len() == 0 {
        seq![]
    } else if t.len() >= 2 && t.last() == '"' && t[t.len() - 2] == '"' {
        undoubled(t.take(t.len() - 2)).push('"')
    } else {
        undoubled(t.drop_last()).push(t.last())
    }
}

/// How a reader takes a written field: a field in quotes is its inside with
/// doubled quotes read as one; any other field is itself.
pub open spec fn read_field(t: Seq<char>) -> Seq<char> {
    if t.len() >= 2 && t[0] == '"' && t.last() == '"' {
        undoubled(t.subrange(1, t.len() - 1))
    } else {
        t
    }
}

proof fn lemma_undoubled_doubled(f: Seq<char>)
    ensures
        undoubled(doubled_quotes(f)) == f,
    decreases f.len(),
{
    if f.len() > 0 {
        lemma_undoubled_doubled(f.drop_last());
        let d = doubled_quotes(f.drop_last());
        let t = doubled_quotes(f);
        if f.last() == '"' {
            assert(t =~= d + seq!['"', '"']);
            assert(t.take(t.len() - 2) =~= d);
        } else {
            assert(t =~= d.push(f.last()));
            assert(t.drop_last() =~= d);
        }
        assert(f =~= f.drop_last().push(f.last()));
    }
}

/// A written field reads back as the field. A field written without quotes
/// holds no comma, quote, carriage return or line feed, so commas and line
/// ends outside quotes only ever separate fields and records.
pub proof fn lemma_csv_field_reads_back(f: Seq<char>)
    ensures
        read_field(csv_field(f)) == f,
        !(csv_field(f).len() >= 2 && csv_field(f)[0] == '"' && csv_field(f).last() == '"')
            ==> !needs_quotes(csv_field(f)),
{
    let w = csv_field(f);
    if needs_quotes(f) {
        let inner = doubled_quotes(f);
        assert(w =~= seq!['"'] + inner + seq!['"']);
        assert(w.subrange(1, w.len() - 1) =~= inner);
        lemma_undoubled_doubled(f);
    } else {
        if f.len() >= 2 && f[0] == '"' {
            assert(is_csv_special(f[0]));
        }
    }
}

/// The fields of a record, written and separated by commas.
pub open spec fn csv_fields(fields: Seq<Seq<char>>) -> Seq<char>
    decreases fields.len(),
{
    if fields.len() == 0 {
        seq![]
    } else if fields.len() == 1 {
        csv_field(fields[0])
    } else {
        csv_fields(fields.drop_last()) + seq![','] + csv_field(fields.last())
    }
}

/// One record as written, ended by a newline; a record that would otherwise
/// be empty is written as `""`.
pub open spec fn csv_record(fields: Seq<Seq<char>>) -> Seq<char> {
    let body = csv_fields(fields);
    (if body.len() == 0 {
        seq!['"', '"']
    } else {
        body
    }).push('\n')
}

/// Records written one after the other.
pub open spec fn csv_records(rows: Seq<Seq<Seq<char>>>) -> Seq<char>
    decreases rows.len(),
{
    if rows.len() == 0 {
        seq![]
    } else {
        csv_records(rows.drop_last()) + csv_record(rows.last())
    }
}

/// The row for the entry at position `i`: its number counted from 1, the
/// word and its interpretation.
pub open spec fn word_row(i: int, word: Seq<char>, interpret: Seq<char>) -> Seq<Seq<char>> {
    seq![decimal_text((i + 1) as nat), word, interpret]
}

/// The rows of an export, one per entry, in order.
pub open spec fn word_rows(entries: Seq<(String, String)>) -> Seq<Seq<Seq<char>>> {
    Seq::new(entries.len(), |i: int| word_row(i, entries[i].0@, entries[i].1@))
}

/// The name of the CSV file of an export made on `date`.
pub open spec fn csv_file_name_text(date: Seq<char>, order: OrderOption) -> Seq<char> {
    "words-"@ + date + "-"@ + order_option_text(order) + ".csv"@
}

/// Writes one record with a `csv::Writer` (built by `WriterBuilder` with
/// headers off, default settings otherwise) into a byte buffer, and reads the
/// buffer back as UTF-8. With those settings the writer puts a comma between
/// fields and `\n` after the record, quotes a field that holds `,`, `"`, `\r`
/// or `\n`, doubles quotes inside a quoted field, and writes `""` for a record
/// with no bytes. The call always succeeds: a fresh writer's field-count check
/// passes on its first record, writing and flushing into a `Vec<u8>` cannot
/// fail, and the output is the fields' UTF-8 text with ASCII punctuation
/// added, so it converts back to a `String`.
#[verifier::external_body]
fn write_csv_record(fields: &Vec<String>) -> (text: Option<String>)
    ensures
        text is Some,
        text matches Some(t) ==> t@ == csv_record(fields.deep_view()),
{
    let mut writer = csv::WriterBuilder::new().has_headers(false).from_writer(vec![]);
    writer.write_record(fields).ok()?;
    let bytes = writer.into_inner().ok()?;
    String::from_utf8(bytes).ok()
}

/// Why an export could not be prepared.
#[derive(Clone, Copy, Debug, PartialEq, Eq, Structural)]
pub enum ExportError {
    /// The CSV writer reported an error; it reports none for the records
    /// of an export.
    CsvWriting,
}

/// The CSV text of the words, one numbered record per entry, in order.
pub fn csv_text(all_words: &InsertionOrderMap<String, String>) -> (text: Result<String, ExportError>)
    ensures
        text is Ok,
        text matches Ok(t) ==> t@ == csv_records(word_rows(all_words.entries())),
{
    let items = all_words.iter();
    let n = items.len();
    let ghost rows = word_rows(all_words.entries());
    let mut text = String::new();
    let mut i: usize = 0;
    while i < n
        invariant
            n == items@.len(),
            n == all_words.entries().len(),
            rows == word_rows(all_words.entries()),
            forall|j: int|
                0 <= j < items@.len() ==> *(#[trigger] items@[j]).0 == all_words.entries()[j].0
                    && *items@[j].1 == all_words.entries()[j].1,
            i <= n,
            text@ == csv_records(rows.take(i as int)),
        decreases n - i,
    {
        let (word, interpret) = items[i];
        let number = u64_decimal((i + 1) as u64);
        let word_field: String = word.clone();
        let interpret_field: String = interpret.clone();
        let fields = vec![number, word_field, interpret_field];
        assert(fields.deep_view() =~= rows[i as int]);
        match write_csv_record(&fields) {
            Some(record) => {
                text.append(record.as_str());
            },
            None => {
                return Err(ExportError::CsvWriting);
            },
        }
        assert(rows.take(i + 1).drop_last() =~= rows.take(i as int));
        i = i + 1;
    }
    assert(rows.take(n as int) =~= rows);
    Ok(text)
}

/// The name of a CSV export reads `words-`, the date, `-`, the order label
/// and `.csv`.
pub proof fn lemma_csv_file_name_parts(date: Seq<char>, order: OrderOption)
    ensures
        ({
            let name = csv_file_name_text(date, order);
            let start: int = 7 + date.len() as int;
            let label = order_option_text(order);
            &&& name.take(start) == "words-"@ + date + "-"@
            &&& name.subrange(start, start + label.len()) == label
            &&& name.len() == start + label.len() + 4
            &&& name.skip(name.len() - 4) == ".csv"@
        }),
{
    reveal_strlit("words-");
    reveal_strlit("-");
    reveal_strlit(".csv");
    let name = csv_file_name_text(date, order);
    let start: int = 7 + date.len() as int;
    let label = order_option_text(order);
    let head = "words-"@ + date + "-"@;
    assert(name =~= head + label + ".csv"@);
    assert(name.take(start) =~= head);
    assert(name.subrange(start, start + label.len()) =~= label);
    assert(name.skip(name.len() - 4) =~= ".csv"@);
}

/// CSV exports made on the same date in different orders get different
/// file names.
pub proof fn lemma_csv_file_names_differ(date: Seq<char>, o1: OrderOption, o2: OrderOption)
    requires
        o1 != o2,
    ensures
        csv_file_name_text(date, o1) != csv_file_name_text(date, o2),
{
    let a = csv_file_name_text(date, o1);
    let b = csv_file_name_text(date, o2);
    lemma_csv_file_name_parts(date, o1);
    lemma_csv_file_name_parts(date, o2);
    lemma_order_labels_differ(o1, o2);
    let start: int = 7 + date.len() as int;
    assert(a[start] == a.subrange(start, start + order_option_text(o1).len())[0]);
    assert(b[start] == b.subrange(start, start + order_option_text(o2).len())[0]);
}

/// The name of the CSV file of an export made on `date`
/// (`words-<date>-<order label>.csv`).
pub fn csv_file_name(date: &str, order: &OrderOption) -> (name: String)
    ensures
        name@ == csv_file_name_text(date@, *order),
{
    let mut name = String::new();
    name.append("words-");
    name.append(date);
    name.append("-");
    name.append(order_option_to_string(order));
    name.append(".csv");
    name
}

/// A CSV export ready to be written out.
pub struct CsvExport {
    pub file_name: String,
    pub text: String,
}

/// Prepares the CSV export of `all_words` made on `date`. There is nothing to
/// write (`Ok(None)`) when the map is empty.
pub fn csv_export(all_words: &InsertionOrderMap<String, String>, order: &OrderOption, date: &str) -> (export: Result<Option<CsvExport>, ExportError>)
    ensures
        export is Ok,
        all_words.entries().len() == 0 <==> export matches Ok(None),
        export matches Ok(Some(e)) ==> e.file_name@ == csv_file_name_text(date@, *order) && e.text@
            == csv_records(word_rows(all_words.entries())),
{
    if all_words.len() == 0 {
        return Ok(None);
    }
    let file_name = csv_file_name(date, order);
    match csv_text(all_words) {
        Ok(text) => Ok(Some(CsvExport { file_name, text })),
        Err(e) => Err(e),
    }
}

} // verus!
