use vstd::prelude::*;

verus! {

/// Keys of an `InsertionOrderMap`: compared for equality by their view, and
/// totally ordered (strictly) by `key_precedes` for `sort_by_key`.
pub trait MapKey: View + Sized {
    /// `a` comes strictly before `b` in key order.
    spec fn key_precedes(a: Self::V, b: Self::V) -> bool;

    proof fn lemma_precedes_irreflexive(a: Self::V)
        ensures
            !Self::key_precedes(a, a),
    ;

    proof fn lemma_precedes_transitive(a: Self::V, b: Self::V, c: Self::V)
        requires
            Self::key_precedes(a, b),
            Self::key_precedes(b, c),
        ensures
            Self::key_precedes(a, c),
    ;

    proof fn lemma_precedes_total(a: Self::V, b: Self::V)
        ensures
            a == b || Self::key_precedes(a, b) || Self::key_precedes(b, a),
    ;

    /// Whether `self` and `other` are the same key.
    fn same_key(&self, other: &Self) -> (same: bool)
        ensures
            same == (self@ == other@),
    ;

    /// Whether `self` comes strictly before `other`.
    fn precedes(&self, other: &Self) -> (before: bool)
        ensures
            before == Self::key_precedes(self@, other@),
    ;
}

/// Lexicographic order of character sequences, characters compared by code
/// point; a proper prefix comes first.
pub open spec fn chars_precede(a: Seq<char>, b: Seq<char>) -> bool
    decreases a.len(),
{
    if a.len() == 0 {
        b.len() > 0
    } else if b.len() == 0 {
        false
    } else if a[0] == b[0] {
        chars_precede(a.drop_first(), b.drop_first())
    } else {
        (a[0] as int) < (b[0] as int)
    }
}

pub proof fn lemma_chars_precede_irreflexive(a: Seq<char>)
    ensures
        !chars_precede(a, a),
    decreases a.len(),
{
    if a.len() > 0 {
        lemma_chars_precede_irreflexive(a.drop_first());
    }
}

pub proof fn lemma_chars_precede_transitive(a: Seq<char>, b: Seq<char>, c: Seq<char>)
    requires
        chars_precede(a, b),
        chars_precede(b, c),
    ensures
        chars_precede(a, c),
    decreases a.len(),
{
    if a.len() > 0 && b.len() > 0 && c.len() > 0 {
        if a[0] == b[0] && b[0] == c[0] {
            lemma_chars_precede_transitive(a.drop_first(), b.drop_first(), c.drop_first());
        }
    }
}

pub proof fn lemma_chars_precede_total(a: Seq<char>, b: Seq<char>)
    ensures
        a == b || chars_precede(a, b) || chars_precede(b, a),
    decreases a.len(),
{
    if a.len() > 0 && b.len() > 0 {
        if a[0] == b[0] {
            lemma_chars_precede_total(a.drop_first(), b.drop_first());
            if a.drop_first() == b.drop_first() {
                assert(a =~= seq![a[0]] + a.drop_first());
                assert(b =~= seq![b[0]] + b.drop_first());
            }
        } else {
            assert((a[0] as int) != (b[0] as int));
        }
    } else if a.len() == 0 && b.len() == 0 {
        assert(a =~= b);
    }
}

/// Strings compare at the first position where they differ, by code point,
/// whatever common prefix comes before it and whatever follows.
pub proof fn lemma_string_order_first_difference(
    p: Seq<char>,
    x: char,
    y: char,
    s: Seq<char>,
    t: Seq<char>,
)
    requires
        (x as int) < (y as int),
    ensures
        <String as MapKey>::key_precedes(p + seq![x] + s, p + seq![y] + t),
        !<String as MapKey>::key_precedes(p + seq![y] + t, p + seq![x] + s),
    decreases p.len(),
{
    let a = p + seq![x] + s;
    let b = p + seq![y] + t;
    if p.len() == 0 {
        assert(a[0] == x);
        assert(b[0] == y);
        assert(x != y);
    } else {
        assert(a[0] == p[0]);
        assert(b[0] == p[0]);
        assert(a.drop_first() =~= p.drop_first() + seq![x] + s);
        assert(b.drop_first() =~= p.drop_first() + seq![y] + t);
        lemma_string_order_first_difference(p.drop_first(), x, y, s, t);
    }
}

/// A string comes strictly before every longer string it begins.
pub proof fn lemma_string_order_prefix(p: Seq<char>, s: Seq<char>)
    requires
        s.len() > 0,
    ensures
        <String as MapKey>::key_precedes(p, p + s),
        !<String as MapKey>::key_precedes(p + s, p),
    decreases p.len(),
{
    let b = p + s;
    if p.len() > 0 {
        assert(b[0] == p[0]);
        assert(b.drop_first() =~= p.drop_first() + s);
        lemma_string_order_prefix(p.drop_first(), s);
    }
}

/// Whether `a` comes strictly before `b` in the order of `chars_precede`,
/// comparing character by character.
fn string_less(a: &String, b: &String) -> (less: bool)
    ensures
        less == chars_precede(a@, b@),
{
    let sa = a.as_str();
    let sb = b.as_str();
    let na = sa.unicode_len();
    let nb = sb.unicode_len();
    let mut i: usize = 0;
    assert(a@.skip(0) =~= a@);
    assert(b@.skip(0) =~= b@);
    while i < na && i < nb
        invariant
            sa@ == a@,
            sb@ == b@,
            na == a@.len(),
            nb == b@.len(),
            i <= na,
            i <= nb,
            chars_precede(a@, b@) == chars_precede(a@.skip(i as int), b@.skip(i as int)),
        decreases na - i,
    {
        let ca = sa.get_char(i);
        let cb = sb.get_char(i);
        assert(a@.skip(i as int)[0] == ca && b@.skip(i as int)[0] == cb);
        if ca != cb {
            let less = (ca as u32) < (cb as u32);
            assert(less == ((ca as int) < (cb as int)));
            assert(a@.skip(i as int).len() > 0 && b@.skip(i as int).len() > 0);
            assert(chars_precede(a@.skip(i as int), b@.skip(i as int)) == ((ca as int) < (cb as int)));
            return less;
        }
        assert(a@.skip(i as int).drop_first() =~= a@.skip(i + 1));
        assert(b@.skip(i as int).drop_first() =~= b@.skip(i + 1));
        i = i + 1;
    }
    i < nb
}

impl MapKey for String {
    open spec fn key_precedes(a: Seq<char>, b: Seq<char>) -> bool {
        chars_precede(a, b)
    }

    proof fn lemma_precedes_irreflexive(a: Seq<char>) {
        lemma_chars_precede_irreflexive(a);
    }

    proof fn lemma_precedes_transitive(a: Seq<char>, b: Seq<char>, c: Seq<char>) {
        lemma_chars_precede_transitive(a, b, c);
    }

    proof fn lemma_precedes_total(a: Seq<char>, b: Seq<char>) {
        lemma_chars_precede_total(a, b);
    }

    fn same_key(&self, other: &Self) -> (same: bool) {
        *self == *other
    }

    fn precedes(&self, other: &Self) -> (before: bool) {
        string_less(self, other)
    }
}

} // verus!
