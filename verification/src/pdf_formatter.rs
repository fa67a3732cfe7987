use vstd::prelude::*;
use crate::constants::{
    lemma_direction_labels_differ, lemma_order_labels_differ, order_option_text,
    order_option_to_string, pdf_direction_text, pdf_direction_to_string, OrderOption,
    PdfDirection,
};

verus! {

/// The name of the PDF file of an export made on `date`.
pub open spec fn pdf_file_name_text(date: Seq<char>, order: OrderOption, direction: PdfDirection) -> Seq<char> {
    "words-"@ + date + "-"@ + order_option_text(order) + "-"@ + pdf_direction_text(direction)
        + ".pdf"@
}

/// The name of a PDF export reads `words-`, the date, `-`, the order label,
/// `-`, the label of the page orientation asked for, and `.pdf`.
pub proof fn lemma_pdf_file_name_parts(date: Seq<char>, order: OrderOption, direction: PdfDirection)
    ensures
        ({
            let name = pdf_file_name_text(date, order, direction);
            let start: int = 7 + date.len() as int;
            let label = order_option_text(order);
            &&& name.take(start) == "words-"@ + date + "-"@
            &&& name.subrange(start, start + label.len()) == label
            &&& name.len() == start + label.len() + 7
            &&& name.skip(name.len() - 7) == (match direction {
                PdfDirection::Longitudinal => "-纵向.pdf"@,
                PdfDirection::Horizontal => "-横向.pdf"@,
            })
        }),
{
    reveal_strlit("words-");
    reveal_strlit("-");
    reveal_strlit(".pdf");
    reveal_strlit("纵向");
    reveal_strlit("横向");
    reveal_strlit("-纵向.pdf");
    reveal_strlit("-横向.pdf");
    let name = pdf_file_name_text(date, order, direction);
    let start: int = 7 + date.len() as int;
    let label = order_option_text(order);
    let head = "words-"@ + date + "-"@;
    let tail = "-"@ + pdf_direction_text(direction) + ".pdf"@;
    assert(name =~= head + label + tail);
    assert(name.take(start) =~= head);
    assert(name.subrange(start, start + label.len()) =~= label);
    assert(name.skip(name.len() - 7) =~= tail);
}

/// Exports made on the same date with a different order or a different page
/// orientation get different file names.
pub proof fn lemma_pdf_file_names_differ(
    date: Seq<char>,
    o1: OrderOption,
    d1: PdfDirection,
    o2: OrderOption,
    d2: PdfDirection,
)
    requires
        o1 != o2 || d1 != d2,
    ensures
        pdf_file_name_text(date, o1, d1) != pdf_file_name_text(date, o2, d2),
{
    let a = pdf_file_name_text(date, o1, d1);
    let b = pdf_file_name_text(date, o2, d2);
    lemma_pdf_file_name_parts(date, o1, d1);
    lemma_pdf_file_name_parts(date, o2, d2);
    lemma_direction_labels_differ(d1, d2);
    reveal_strlit("-纵向.pdf");
    reveal_strlit("-横向.pdf");
    let start: int = 7 + date.len() as int;
    if o1 != o2 {
        lemma_order_labels_differ(o1, o2);
        assert(a[start] == a.subrange(start, start + order_option_text(o1).len())[0]);
        assert(b[start] == b.subrange(start, start + order_option_text(o2).len())[0]);
        assert(a[start] != b[start]);
    } else if a.len() == b.len() {
        assert(a[a.len() - 6] == a.skip(a.len() - 7)[1]);
        assert(b[b.len() - 6] == b.skip(b.len() - 7)[1]);
        assert(a[a.len() - 6] != b[b.len() - 6]);
    }
}

/// The name of the PDF file of an export made on `date`
/// (`words-<date>-<order label>-<direction label>.pdf`).
pub fn pdf_file_name(date: &str, order: &OrderOption, direction: &PdfDirection) -> (name: String)
    ensures
        name@ == pdf_file_name_text(date@, *order, *direction),
{
    let mut name = String::new();
    name.append("words-");
    name.append(date);
    name.append("-");
    name.append(order_option_to_string(order));
    name.append("-");
    name.append(pdf_direction_to_string(direction));
    name.append(".pdf");
    name
}

} // verus!
