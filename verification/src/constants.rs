use vstd::prelude::*;
use crate::text::same_text;

verus! {

/// The order in which the collected words are written out.
#[derive(Clone, Copy, Debug, PartialEq, Eq, Structural)]
pub enum OrderOption {
    DefaultOrder,
    ShuffleOrder,
    AlphabeticalOrder,
    NoExport,
}

/// The file format of an export.
#[derive(Clone, Copy, Debug, PartialEq, Eq, Structural)]
pub enum FormatOption {
    Csv,
    Pdf,
}

/// The page orientation of a PDF export.
#[derive(Clone, Copy, Debug, PartialEq, Eq, Structural)]
pub enum PdfDirection {
    Longitudinal,
    Horizontal,
}

/// The label shown for an order option.
pub open spec fn order_option_text(option: OrderOption) -> Seq<char> {
    match option {
        OrderOption::DefaultOrder => "默认顺序"@,
        OrderOption::ShuffleOrder => "打乱顺序"@,
        OrderOption::AlphabeticalOrder => "字典顺序"@,
        OrderOption::NoExport => "不导出至文件"@,
    }
}

/// The label shown for a file format.
pub open spec fn format_option_text(option: FormatOption) -> Seq<char> {
    match option {
        FormatOption::Csv => "CSV"@,
        FormatOption::Pdf => "PDF"@,
    }
}

/// The label shown for a page orientation.
pub open spec fn pdf_direction_text(direction: PdfDirection) -> Seq<char> {
    match direction {
        PdfDirection::Longitudinal => "纵向"@,
        PdfDirection::Horizontal => "横向"@,
    }
}

/// Different order options have labels that differ in their first character.
pub proof fn lemma_order_labels_differ(a: OrderOption, b: OrderOption)
    requires
        a != b,
    ensures
        order_option_text(a).len() >= 1,
        order_option_text(b).len() >= 1,
        order_option_text(a)[0] != order_option_text(b)[0],
{
    reveal_strlit("默认顺序");
    reveal_strlit("打乱顺序");
    reveal_strlit("字典顺序");
    reveal_strlit("不导出至文件");
}

/// The two page orientations have labels of two characters that differ in
/// their first character.
pub proof fn lemma_direction_labels_differ(a: PdfDirection, b: PdfDirection)
    ensures
        pdf_direction_text(a).len() == 2,
        a != b ==> pdf_direction_text(a)[0] != pdf_direction_text(b)[0],
{
    reveal_strlit("纵向");
    reveal_strlit("横向");
}

/// The label of an order option, as shown in menus and file names.
pub fn order_option_to_string(option: &OrderOption) -> (label: &'static str)
    ensures
        label@ == order_option_text(*option),
{
    match option {
        OrderOption::DefaultOrder => "默认顺序",
        OrderOption::ShuffleOrder => "打乱顺序",
        OrderOption::AlphabeticalOrder => "字典顺序",
        OrderOption::NoExport => "不导出至文件",
    }
}

/// The label of a file format.
pub fn format_option_to_string(option: &FormatOption) -> (label: &'static str)
    ensures
        label@ == format_option_text(*option),
{
    match option {
        FormatOption::Csv => "CSV",
        FormatOption::Pdf => "PDF",
    }
}

/// The label of a page orientation, as shown in menus and file names.
pub fn pdf_direction_to_string(direction: &PdfDirection) -> (label: &'static str)
    ensures
        label@ == pdf_direction_text(*direction),
{
    match direction {
        PdfDirection::Longitudinal => "纵向",
        PdfDirection::Horizontal => "横向",
    }
}

/// The order option chosen by an answer: `"0"` to `"3"` in the order of the
/// variants; any other answer chooses none.
pub fn parse_order_choice(answer: &str) -> (choice: Option<OrderOption>)
    ensures
        choice == (if answer@ == "0"@ {
            Some(OrderOption::DefaultOrder)
        } else if answer@ == "1"@ {
            Some(OrderOption::ShuffleOrder)
        } else if answer@ == "2"@ {
            Some(OrderOption::AlphabeticalOrder)
        } else if answer@ == "3"@ {
            Some(OrderOption::NoExport)
        } else {
            None
        }),
{
    if same_text(answer, "0") {
        Some(OrderOption::DefaultOrder)
    } else if same_text(answer, "1") {
        Some(OrderOption::ShuffleOrder)
    } else if same_text(answer, "2") {
        Some(OrderOption::AlphabeticalOrder)
    } else if same_text(answer, "3") {
        Some(OrderOption::NoExport)
    } else {
        None
    }
}

/// The file format chosen by an answer: `"0"` for CSV, `"1"` for PDF.
pub fn parse_format_choice(answer: &str) -> (choice: Option<FormatOption>)
    ensures
        choice == (if answer@ == "0"@ {
            Some(FormatOption::Csv)
        } else if answer@ == "1"@ {
            Some(FormatOption::Pdf)
        } else {
            None
        }),
{
    if same_text(answer, "0") {
        Some(FormatOption::Csv)
    } else if same_text(answer, "1") {
        Some(FormatOption::Pdf)
    } else {
        None
    }
}

/// The page orientation chosen by an answer: `"0"` for portrait
/// (longitudinal), `"1"` for landscape (horizontal).
pub fn parse_pdf_direction(answer: &str) -> (choice: Option<PdfDirection>)
    ensures
        choice == (if answer@ == "0"@ {
            Some(PdfDirection::Longitudinal)
        } else if answer@ == "1"@ {
            Some(PdfDirection::Horizontal)
        } else {
            None
        }),
{
    if same_text(answer, "0") {
        Some(PdfDirection::Longitudinal)
    } else if same_text(answer, "1") {
        Some(PdfDirection::Horizontal)
    } else {
        None
    }
}

} // verus!
