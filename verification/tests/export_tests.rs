use word_export::constants::{
    format_option_to_string, order_option_to_string, parse_format_choice, parse_order_choice,
    parse_pdf_direction, pdf_direction_to_string, FormatOption, OrderOption, PdfDirection,
};
use word_export::csv_formatter::{csv_export, csv_file_name, csv_text, ExportError};
use word_export::insertion_order_map::InsertionOrderMap;
use word_export::pdf_formatter::pdf_file_name;

fn s(text: &str) -> String {
    text.to_string()
}

#[test]
fn option_labels() {
    assert_eq!(order_option_to_string(&OrderOption::DefaultOrder), "默认顺序");
    assert_eq!(order_option_to_string(&OrderOption::ShuffleOrder), "打乱顺序");
    assert_eq!(order_option_to_string(&OrderOption::AlphabeticalOrder), "字典顺序");
    assert_eq!(order_option_to_string(&OrderOption::NoExport), "不导出至文件");
    assert_eq!(format_option_to_string(&FormatOption::Csv), "CSV");
    assert_eq!(format_option_to_string(&FormatOption::Pdf), "PDF");
    assert_eq!(pdf_direction_to_string(&PdfDirection::Longitudinal), "纵向");
    assert_eq!(pdf_direction_to_string(&PdfDirection::Horizontal), "横向");
}

#[test]
fn choices_from_answers() {
    assert_eq!(parse_order_choice("0"), Some(OrderOption::DefaultOrder));
    assert_eq!(parse_order_choice("1"), Some(OrderOption::ShuffleOrder));
    assert_eq!(parse_order_choice("2"), Some(OrderOption::AlphabeticalOrder));
    assert_eq!(parse_order_choice("3"), Some(OrderOption::NoExport));
    assert_eq!(parse_order_choice("4"), None);
    assert_eq!(parse_order_choice(""), None);
    assert_eq!(parse_order_choice("00"), None);
    assert_eq!(parse_format_choice("0"), Some(FormatOption::Csv));
    assert_eq!(parse_format_choice("1"), Some(FormatOption::Pdf));
    assert_eq!(parse_format_choice("2"), None);
    assert_eq!(parse_pdf_direction("0"), Some(PdfDirection::Longitudinal));
    assert_eq!(parse_pdf_direction("1"), Some(PdfDirection::Horizontal));
    assert_eq!(parse_pdf_direction("x"), None);
}

#[test]
fn file_names() {
    assert_eq!(csv_file_name("2024_05_01", &OrderOption::ShuffleOrder), "words-2024_05_01-打乱顺序.csv");
    assert_eq!(
        pdf_file_name("2024_05_01", &OrderOption::AlphabeticalOrder, &PdfDirection::Horizontal),
        "words-2024_05_01-字典顺序-横向.pdf"
    );
}

#[test]
fn csv_text_numbers_rows() {
    let mut m = InsertionOrderMap::new();
    m.insert(s("apple"), s("n. 苹果"));
    m.insert(s("go"), s("v. 走"));
    assert_eq!(csv_text(&m), Ok(s("1,apple,n. 苹果\n2,go,v. 走\n")));
}

#[test]
fn csv_text_quotes_special_fields() {
    let mut m = InsertionOrderMap::new();
    m.insert(s("a,b"), s("say \"hi\""));
    m.insert(s("line"), s("one\rtwo"));
    m.insert(s(""), s("empty word"));
    assert_eq!(
        csv_text(&m),
        Ok(s("1,\"a,b\",\"say \"\"hi\"\"\"\n2,line,\"one\rtwo\"\n3,,empty word\n"))
    );
}

#[test]
fn csv_numbers_reach_two_digits() {
    let mut m = InsertionOrderMap::new();
    for i in 0..10 {
        m.insert(format!("w{}", i), s("x"));
    }
    let text = csv_text(&m).unwrap();
    assert!(text.ends_with("10,w9,x\n"));
}

#[test]
fn csv_export_of_empty_map_is_nothing() {
    let m: InsertionOrderMap<String, String> = InsertionOrderMap::new();
    assert!(matches!(csv_export(&m, &OrderOption::DefaultOrder, "2024_05_01"), Ok(None)));
}

#[test]
fn csv_export_of_words() {
    let mut m = InsertionOrderMap::new();
    m.insert(s("go"), s("走"));
    match csv_export(&m, &OrderOption::DefaultOrder, "2024_05_01") {
        Ok(Some(e)) => {
            assert_eq!(e.file_name, "words-2024_05_01-默认顺序.csv");
            assert_eq!(e.text, "1,go,走\n");
        }
        _ => panic!("export expected"),
    }
    let _ = ExportError::CsvWriting;
}

#[test]
fn csv_text_of_empty_map_is_empty() {
    let m: InsertionOrderMap<String, String> = InsertionOrderMap::new();
    assert_eq!(csv_text(&m), Ok(s("")));
}
