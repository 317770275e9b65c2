use vstd::prelude::*;
use vstd::string::StrSliceExecFns;

use crate::tree::texts;

verus! {

/// Lexicographic order of texts by character code, as `str`'s `Ord` orders them.
pub open spec fn text_less(a: Seq<char>, b: Seq<char>) -> bool
    decreases a.len(),
{
    if a.len() == 0 {
        b.len() > 0
    } else if b.len() == 0 {
        false
    } else if a[0] != b[0] {
        (a[0] as u32) < (b[0] as u32)
    } else {
        text_less(a.drop_first(), b.drop_first())
    }
}

/// Lexicographic order of pairs of texts.
pub open spec fn pair_less(a: (Seq<char>, Seq<char>), b: (Seq<char>, Seq<char>)) -> bool {
    text_less(a.0, b.0) || (a.0 == b.0 && text_less(a.1, b.1))
}

/// The first position in `s` from `i` on whose text comes after `x`, or the length.
pub open spec fn sorted_pos(s: Seq<Seq<char>>, x: Seq<char>, i: int) -> int
    decreases s.len() - i,
{
    if i < 0 || i >= s.len() {
        s.len() as int
    } else if text_less(x, s[i]) {
        i
    } else {
        sorted_pos(s, x, i + 1)
    }
}

/// `sorted_pos` stops at the first text from `i` on that comes after `x`.
pub proof fn lemma_sorted_pos_split(s: Seq<Seq<char>>, x: Seq<char>, i: int)
    requires
        0 <= i <= s.len(),
    ensures
        i <= sorted_pos(s, x, i) <= s.len(),
        forall|k: int| i <= k < sorted_pos(s, x, i) ==> !text_less(x, s[k]),
        sorted_pos(s, x, i) < s.len() ==> text_less(x, s[sorted_pos(s, x, i)]),
    decreases s.len() - i,
{
    if i < s.len() && !text_less(x, s[i]) {
        lemma_sorted_pos_split(s, x, i + 1);
    }
}

/// Whether `s` is in strictly ascending lexicographic order.
pub open spec fn texts_sorted(s: Seq<Seq<char>>) -> bool {
    forall|i: int, j: int| 0 <= i < j < s.len() ==> text_less(#[trigger] s[i], #[trigger] s[j])
}

/// Whether `a` comes before `b` in lexicographic order.
pub fn text_lt(a: &String, b: &String) -> (r: bool)
    ensures
        r == text_less(a@, b@),
{
    let sa = a.as_str();
    let sb = b.as_str();
    let la = sa.unicode_len();
    let lb = sb.unicode_len();
    let mut i: usize = 0;
    assert(a@.skip(0) =~= a@);
    assert(b@.skip(0) =~= b@);
    while i < la && i < lb
        invariant
            sa@ == a@,
            sb@ == b@,
            la == a@.len(),
            lb == b@.len(),
            i <= la,
            i <= lb,
            text_less(a@, b@) == text_less(a@.skip(i as int), b@.skip(i as int)),
        decreases la - i,
    {
        let ca = sa.get_char(i);
        let cb = sb.get_char(i);
        assert(a@.skip(i as int)[0] == ca);
        assert(b@.skip(i as int)[0] == cb);
        if (ca as u32) != (cb as u32) {
            return (ca as u32) < (cb as u32);
        }
        assert(a@.skip(i as int).drop_first() =~= a@.skip(i + 1));
        assert(b@.skip(i as int).drop_first() =~= b@.skip(i + 1));
        i = i + 1;
    }
    i == la && lb > la
}

/// Whether pair `(a0, a1)` comes before pair `(b0, b1)`.
pub fn pair_lt(a0: &String, a1: &String, b0: &String, b1: &String) -> (r: bool)
    ensures
        r == pair_less((a0@, a1@), (b0@, b1@)),
{
    text_lt(a0, b0) || (*a0 == *b0 && text_lt(a1, b1))
}

/// The position at which `x` goes in `s` to keep it sorted after equal texts.
pub fn sorted_position(s: &Vec<String>, x: &String) -> (r: usize)
    ensures
        r as int == sorted_pos(texts(s@), x@, 0),
        r <= s@.len(),
{
    let ghost ts = texts(s@);
    let mut i: usize = 0;
    while i < s.len() && !text_lt(x, &s[i])
        invariant
            i <= s@.len(),
            ts == texts(s@),
            sorted_pos(ts, x@, 0) == sorted_pos(ts, x@, i as int),
        decreases s@.len() - i,
    {
        i = i + 1;
    }
    i
}

proof fn lemma_char_order(x: char, y: char)
    ensures
        x != y ==> (x as u32) != (y as u32),
{
    vstd::utf8::char_u32_cast(x, x as u32);
    vstd::utf8::char_u32_cast(y, y as u32);
}

proof fn lemma_text_less_irreflexive(a: Seq<char>)
    ensures
        !text_less(a, a),
    decreases a.len(),
{
    if a.len() > 0 {
        lemma_text_less_irreflexive(a.drop_first());
    }
}

proof fn lemma_text_less_total(a: Seq<char>, b: Seq<char>)
    ensures
        text_less(a, b) ==> !text_less(b, a),
        a != b ==> text_less(a, b) || text_less(b, a),
    decreases a.len(),
{
    if a.len() > 0 && b.len() > 0 {
        lemma_text_less_total(a.drop_first(), b.drop_first());
        lemma_char_order(a[0], b[0]);
        if a != b && a[0] == b[0] {
            assert(a.drop_first() != b.drop_first()) by {
                if a.drop_first() == b.drop_first() {
                    assert(a =~= seq![a[0]] + a.drop_first());
                    assert(b =~= seq![b[0]] + b.drop_first());
                }
            }
        }
    } else if a.len() == 0 && b.len() == 0 {
        assert(a =~= b);
    }
}

proof fn lemma_text_less_transitive(a: Seq<char>, b: Seq<char>, c: Seq<char>)
    ensures
        text_less(a, b) && text_less(b, c) ==> text_less(a, c),
    decreases a.len(),
{
    if a.len() > 0 && b.len() > 0 && c.len() > 0 {
        lemma_text_less_transitive(a.drop_first(), b.drop_first(), c.drop_first());
        lemma_char_order(a[0], b[0]);
        lemma_char_order(b[0], c[0]);
        lemma_char_order(a[0], c[0]);
    }
}

/// `text_less` is a strict total order.
pub proof fn lemma_text_less_order(a: Seq<char>, b: Seq<char>, c: Seq<char>)
    ensures
        !text_less(a, a),
        text_less(a, b) ==> !text_less(b, a),
        a != b ==> text_less(a, b) || text_less(b, a),
        text_less(a, b) && text_less(b, c) ==> text_less(a, c),
{
    lemma_text_less_irreflexive(a);
    lemma_text_less_total(a, b);
    lemma_text_less_transitive(a, b, c);
}

/// `pair_less` is a strict total order.
pub proof fn lemma_pair_less_order(
    a: (Seq<char>, Seq<char>),
    b: (Seq<char>, Seq<char>),
    c: (Seq<char>, Seq<char>),
)
    ensures
        !pair_less(a, a),
        pair_less(a, b) ==> !pair_less(b, a),
        a != b ==> pair_less(a, b) || pair_less(b, a),
        pair_less(a, b) && pair_less(b, c) ==> pair_less(a, c),
{
    lemma_text_less_order(a.0, b.0, c.0);
    lemma_text_less_order(a.1, b.1, c.1);
    lemma_text_less_order(b.0, a.0, c.0);
    lemma_text_less_order(a.0, c.0, b.0);
    lemma_text_less_order(b.0, c.0, a.0);
}

} // verus!
