use word_export::constants::OrderOption;
use word_export::insertion_order_map::InsertionOrderMap;
use word_export::session::{
    apply_order_choice, insert_page_words, page_url, progress_marks, PageReply, Retries,
    WordHarvest,
};

fn s(text: &str) -> String {
    text.to_string()
}

fn page(total: u32, words: &[(&str, &str)]) -> PageReply {
    PageReply { total_pages: total, words: words.iter().map(|(w, i)| (s(w), s(i))).collect() }
}

#[test]
fn page_urls() {
    assert_eq!(page_url(0), "https://www.bbdc.cn/api/user-new-word?page=0");
    assert_eq!(page_url(17), "https://www.bbdc.cn/api/user-new-word?page=17");
}

#[test]
fn progress_values() {
    assert_eq!(progress_marks(2, 4), (25, 50));
    assert_eq!(progress_marks(3, 3), (50, 100));
    assert_eq!(progress_marks(1, 3), (16, 33));
}

#[test]
fn page_words_join_lines_of_interpretations() {
    let mut m = InsertionOrderMap::new();
    insert_page_words(&mut m, vec![(s("go"), s("v. 走\nn. 围棋")), (s("run"), s("v. 跑"))]);
    assert_eq!(m.get(&s("go")), Some(&s("v. 走 n. 围棋")));
    assert_eq!(m.get(&s("run")), Some(&s("v. 跑")));
    insert_page_words(&mut m, vec![(s("go"), s("again"))]);
    assert_eq!(m.len(), 2);
    assert_eq!(m.get(&s("go")), Some(&s("again")));
    assert_eq!(m.keys()[0], &s("go"));
}

#[test]
fn harvest_fetches_all_pages_in_order() {
    let mut m = InsertionOrderMap::new();
    let mut h = WordHarvest::new();
    assert_eq!(h.next_request(), Some(0));
    h.receive(Some(page(3, &[("a", "1")])), &mut m);
    assert_eq!(h.total_pages, 3);
    assert_eq!(h.next_request(), Some(1));
    h.receive(Some(page(99, &[("b", "2")])), &mut m);
    assert_eq!(h.total_pages, 3);
    assert_eq!(h.next_request(), Some(2));
    h.receive(Some(page(3, &[("c", "3")])), &mut m);
    assert_eq!(h.next_request(), None);
    assert_eq!(m.len(), 3);
}

#[test]
fn harvest_stops_at_first_missing_page() {
    let mut m = InsertionOrderMap::new();
    let mut h = WordHarvest::new();
    h.receive(Some(page(5, &[("a", "1")])), &mut m);
    h.receive(None, &mut m);
    assert_eq!(h.next_request(), None);
    assert_eq!(m.len(), 1);
}

#[test]
fn harvest_without_first_page_collects_nothing() {
    let mut m: InsertionOrderMap<String, String> = InsertionOrderMap::new();
    let mut h = WordHarvest::new();
    h.receive(None, &mut m);
    assert_eq!(h.next_request(), None);
    assert_eq!(m.len(), 0);
}

#[test]
fn harvest_of_single_page() {
    let mut m = InsertionOrderMap::new();
    let mut h = WordHarvest::new();
    h.receive(Some(page(1, &[("a", "1")])), &mut m);
    assert_eq!(h.next_request(), None);
    let mut m2 = InsertionOrderMap::new();
    let mut h2 = WordHarvest::new();
    h2.receive(Some(page(0, &[("a", "1")])), &mut m2);
    assert_eq!(h2.next_request(), None);
    assert_eq!(m2.len(), 1);
}

#[test]
fn order_choices_arrange_words() {
    let mut m = InsertionOrderMap::new();
    m.insert(s("b"), s("2"));
    m.insert(s("a"), s("1"));
    apply_order_choice(&mut m, &OrderOption::DefaultOrder);
    assert_eq!(m.keys(), vec![&s("b"), &s("a")]);
    apply_order_choice(&mut m, &OrderOption::NoExport);
    assert_eq!(m.keys(), vec![&s("b"), &s("a")]);
    apply_order_choice(&mut m, &OrderOption::AlphabeticalOrder);
    assert_eq!(m.keys(), vec![&s("a"), &s("b")]);
    apply_order_choice(&mut m, &OrderOption::ShuffleOrder);
    assert_eq!(m.len(), 2);
    assert_eq!(m.get(&s("b")), Some(&s("2")));
}

#[test]
fn retries_allow_limit_attempts() {
    let mut r = Retries::new(3);
    let mut attempts = 0;
    while r.may_try() {
        attempts += 1;
        r.failed();
    }
    assert_eq!(attempts, 3);
    assert!(!Retries::new(0).may_try());
}
