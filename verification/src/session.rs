use vstd::prelude::*;
use crate::constants::OrderOption;
use crate::entries::{
    distinct_keys, has_key, inserted, inserted_all, is_permutation, key_index, lemma_key_index,
    same_entries,
};
use crate::insertion_order_map::{sorted_by_key, InsertionOrderMap};
use crate::text::{decimal_text, u64_decimal};

verus! {

/// The address of page `page` of the word list.
pub open spec fn page_url_text(page: nat) -> Seq<char> {
    "https://www.bbdc.cn/api/user-new-word?page="@ + decimal_text(page)
}

/// The address of page `page` of the word list.
pub fn page_url(page: u32) -> (url: String)
    ensures
        url@ == page_url_text(page as nat),
{
    let mut url = String::new();
    url.append("https://www.bbdc.cn/api/user-new-word?page=");
    let number = u64_decimal(page as u64);
    url.append(number.as_str());
    url
}

/// The progress shown once `done` of `total` pages are being fetched: the
/// number of marks of a bar fifty marks wide, and the percentage.
pub fn progress_marks(done: u32, total: u32) -> (marks: (u32, u32))
    requires
        total > 0,
        done * 100 <= u32::MAX,
    ensures
        marks.0 == (done * 50) / (total as int),
        marks.1 == (done * 100) / (total as int),
{
    (done * 50 / total, done * 100 / total)
}

/// `s` with every line feed turned into a space.
pub open spec fn spaced(s: Seq<char>) -> Seq<char> {
    s.map_values(|c: char| if c == '\n' { ' ' } else { c })
}

/// A stored interpretation is as long as the received one, has a space where
/// the received text has a line feed and the received character everywhere
/// else, and so holds no line feed at all.
pub proof fn lemma_spaced_positions(s: Seq<char>)
    ensures
        spaced(s).len() == s.len(),
        forall|i: int|
            0 <= i < s.len() ==> #[trigger] spaced(s)[i] == (if s[i] == '\n' {
                ' '
            } else {
                s[i]
            }),
        !spaced(s).contains('\n'),
{
    if spaced(s).contains('\n') {
        let i = choose|i: int| 0 <= i < spaced(s).len() && spaced(s)[i] == '\n';
        assert(spaced(s)[i] == (if s[i] == '\n' {
            ' '
        } else {
            s[i]
        }));
    }
}

/// `s` with every line feed turned into a space.
fn newlines_to_spaces(s: &str) -> (out: String)
    ensures
        out@ == spaced(s@),
{
    let n = s.unicode_len();
    let mut out = String::new();
    let mut i: usize = 0;
    while i < n
        invariant
            n == s@.len(),
            i <= n,
            out@ == spaced(s@.take(i as int)),
        decreases n - i,
    {
        let c = s.get_char(i);
        if c == '\n' {
            proof {
                reveal_strlit(" ");
            }
            out.append(" ");
        } else {
            let piece = s.substring_char(i, i + 1);
            assert(piece@ =~= seq![c]);
            out.append(piece);
        }
        assert(spaced(s@.take(i + 1)) =~= spaced(s@.take(i as int)).push(
            if c == '\n' {
                ' '
            } else {
                c
            },
        ));
        i = i + 1;
    }
    assert(s@.take(n as int) =~= s@);
    out
}

/// The map's entries with every value taken by its text.
pub open spec fn text_entries(s: Seq<(Seq<char>, String)>) -> Seq<(Seq<char>, Seq<char>)> {
    s.map_values(|e: (Seq<char>, String)| (e.0, e.1@))
}

/// The pairs that a page of words stores: each word with its interpretation
/// on one line.
pub open spec fn page_items(words: Seq<(String, String)>) -> Seq<(Seq<char>, Seq<char>)> {
    words.map_values(|w: (String, String)| (w.0@, spaced(w.1@)))
}

proof fn lemma_text_entries_inserted(s: Seq<(Seq<char>, String)>, k: Seq<char>, v: String)
    requires
        distinct_keys(s),
    ensures
        distinct_keys(text_entries(s)),
        text_entries(inserted(s, k, v)) == inserted(text_entries(s), k, v@),
{
    let t = text_entries(s);
    assert(distinct_keys(t)) by {
        assert forall|i: int, j: int|
            0 <= i < t.len() && 0 <= j < t.len() && i != j implies #[trigger] t[i].0
            != #[trigger] t[j].0 by {
            assert(s[i].0 != s[j].0);
        }
    }
    if has_key(s, k) {
        let i = key_index(s, k);
        assert(s[i].0 == k);
        assert(t[i].0 == k);
        lemma_key_index(t, k, i);
        assert(text_entries(inserted(s, k, v)) =~= inserted(t, k, v@));
    } else {
        assert(!has_key(t, k)) by {
            if has_key(t, k) {
                let j = key_index(t, k);
                assert(s[j].0 == k);
            }
        }
        assert(text_entries(inserted(s, k, v)) =~= inserted(t, k, v@));
    }
}

/// Stores the words of one page, in order, each interpretation with its line
/// feeds turned into spaces.
pub fn insert_page_words(all_words: &mut InsertionOrderMap<String, String>, words: Vec<(String, String)>)
    ensures
        final(all_words).wf(),
        text_entries(final(all_words).model()) == inserted_all(
            text_entries(old(all_words).model()),
            page_items(words@),
        ),
{
    let ghost items = page_items(words@);
    let ghost orig = words@;
    let ghost start = text_entries(all_words.model());
    let mut words = words;
    let mut rest: Vec<(String, String)> = Vec::new();
    // `rest` receives the words in reverse, so that popping yields them in order.
    while words.len() > 0
        invariant
            forall|j: int| 0 <= j < rest@.len() ==> rest@[j] == orig[orig.len() - 1 - j],
            rest@.len() + words@.len() == orig.len(),
            forall|j: int| 0 <= j < words@.len() ==> words@[j] == orig[j],
        decreases words@.len(),
    {
        let w = words.pop().unwrap();
        rest.push(w);
    }
    let n = rest.len();
    let mut done: usize = 0;
    proof {
        use_type_invariant(&*all_words);
    }
    while rest.len() > 0
        invariant
            all_words.wf(),
            n == orig.len(),
            items == page_items(orig),
            done + rest@.len() == n,
            forall|j: int| 0 <= j < rest@.len() ==> rest@[j] == orig[n - 1 - j],
            text_entries(all_words.model()) == inserted_all(start, items.take(done as int)),
        decreases rest@.len(),
    {
        let (word, interpret) = rest.pop().unwrap();
        assert((word, interpret) == orig[done as int]);
        let line = newlines_to_spaces(interpret.as_str());
        proof {
            lemma_text_entries_inserted(all_words.model(), word@, line);
            assert(items.take(done + 1).drop_last() =~= items.take(done as int));
            assert(items.take(done + 1).last() == (word@, line@));
        }
        all_words.insert(word, line);
        done = done + 1;
    }
    assert(items.take(n as int) =~= items);
}

/// One page of the word list as received: the number of pages the list has,
/// and the (word, interpretation) pairs on the page.
pub struct PageReply {
    pub total_pages: u32,
    pub words: Vec<(String, String)>,
}

/// Which pages of the word list are fetched, and when fetching stops.
/// Page 0 is fetched first and tells how many pages there are; the others
/// follow in order until the last one or the first that cannot be had.
pub struct WordHarvest {
    /// The page to fetch next.
    pub next_page: u32,
    /// The number of pages, as page 0 reported it (0 until then).
    pub total_pages: u32,
    /// No more pages are to be fetched.
    pub finished: bool,
}

impl WordHarvest {
    pub fn new() -> (harvest: Self)
        ensures
            harvest.next_page == 0,
            harvest.total_pages == 0,
            !harvest.finished,
    {
        WordHarvest { next_page: 0, total_pages: 0, finished: false }
    }

    /// The page to fetch next, or `None` when fetching is over.
    pub fn next_request(&self) -> (page: Option<u32>)
        ensures
            page == (if self.finished {
                None
            } else {
                Some(self.next_page)
            }),
    {
        if self.finished {
            None
        } else {
            Some(self.next_page)
        }
    }

    /// Takes the reply to the request for `next_page` (`None`: the page could
    /// not be had) and stores its words.
    pub fn receive(&mut self, reply: Option<PageReply>, all_words: &mut InsertionOrderMap<String, String>)
        requires
            !old(self).finished,
            old(self).next_page == 0 || old(self).next_page < old(self).total_pages,
        ensures
            final(all_words).wf(),
            match reply {
                None => {
                    &&& final(self).finished
                    &&& final(self).next_page == old(self).next_page
                    &&& final(self).total_pages == old(self).total_pages
                    &&& final(all_words).entries() == old(all_words).entries()
                },
                Some(r) => {
                    let total = if old(self).next_page == 0 {
                        r.total_pages
                    } else {
                        old(self).total_pages
                    };
                    &&& final(self).total_pages == total
                    &&& final(self).next_page == old(self).next_page + 1
                    &&& final(self).finished == (old(self).next_page + 1 >= total)
                    &&& text_entries(final(all_words).model()) == inserted_all(
                        text_entries(old(all_words).model()),
                        page_items(r.words@),
                    )
                },
            },
            final(self).finished || final(self).next_page < final(self).total_pages,
    {
        proof {
            use_type_invariant(&*all_words);
        }
        match reply {
            None => {
                self.finished = true;
            },
            Some(r) => {
                if self.next_page == 0 {
                    self.total_pages = r.total_pages;
                }
                insert_page_words(all_words, r.words);
                self.next_page = self.next_page + 1;
                self.finished = self.next_page >= self.total_pages;
            },
        }
    }
}

/// Puts the words in the order chosen: shuffled, sorted by word, or left as
/// they are.
pub fn apply_order_choice(all_words: &mut InsertionOrderMap<String, String>, choice: &OrderOption)
    ensures
        final(all_words).wf(),
        match *choice {
            OrderOption::ShuffleOrder => is_permutation(final(all_words).entries(), old(all_words).entries()),
            OrderOption::AlphabeticalOrder => {
                &&& same_entries(final(all_words).entries(), old(all_words).entries())
                &&& sorted_by_key::<String, String>(final(all_words).model())
            },
            _ => final(all_words).entries() == old(all_words).entries(),
        },
{
    proof {
        use_type_invariant(&*all_words);
    }
    match choice {
        OrderOption::ShuffleOrder => all_words.shuffle(),
        OrderOption::AlphabeticalOrder => all_words.sort_by_key(),
        _ => {},
    }
}

/// The attempts made to fetch one page: up to `limit`, stopping at the
/// first that succeeds.
pub struct Retries {
    /// Attempts made and failed so far.
    pub made: u32,
    /// The most attempts to make.
    pub limit: u32,
}

impl Retries {
    pub fn new(limit: u32) -> (retries: Self)
        ensures
            retries.made == 0,
            retries.limit == limit,
    {
        Retries { made: 0, limit }
    }

    /// Whether another attempt is to be made.
    pub fn may_try(&self) -> (again: bool)
        ensures
            again == (self.made < self.limit),
    {
        self.made < self.limit
    }

    /// Counts a failed attempt.
    pub fn failed(&mut self)
        requires
            old(self).made < old(self).limit,
        ensures
            final(self).made == old(self).made + 1,
            final(self).limit == old(self).limit,
    {
        self.made = self.made + 1;
    }
}

} // verus!
