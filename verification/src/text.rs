use vstd::prelude::*;
use vstd::string::StrSliceExecFns;

verus! {

/// The texts of a list of strings.
pub open spec fn texts(s: Seq<String>) -> Seq<Seq<char>> {
    Seq::new(s.len(), |i: int| s[i]@)
}

/// A new list holding the same texts in the same order.
pub fn copy_texts(v: &[String]) -> (r: Vec<String>)
    ensures
        texts(r@) == texts(v@),
{
    let mut out: Vec<String> = Vec::new();
    let n = v.len();
    for i in 0..n
        invariant
            n == v@.len(),
            out@.len() == i,
            forall|j: int| 0 <= j < i ==> (#[trigger] out@[j])@ == v@[j]@,
    {
        out.push(v[i].clone());
    }
    assert(texts(out@) =~= texts(v@));
    out
}

/// Whether two lists hold the same texts in the same order.
pub fn same_texts(a: &[String], b: &[String]) -> (r: bool)
    ensures
        r == (texts(a@) == texts(b@)),
{
    if a.len() != b.len() {
        assert(texts(a@).len() != texts(b@).len());
        return false;
    }
    let n = a.len();
    for i in 0..n
        invariant
            n == a@.len(),
            n == b@.len(),
            forall|j: int| 0 <= j < i ==> (#[trigger] a@[j])@ == b@[j]@,
    {
        if a[i] != b[i] {
            assert(texts(a@)[i as int] != texts(b@)[i as int]);
            return false;
        }
    }
    assert(texts(a@) =~= texts(b@));
    true
}

/// How two texts compare, character by character, a text before any longer
/// text that begins with it: -1 when `a` comes first, 1 when `b` does, 0 when
/// they are equal. For strings this is the order of their UTF-8 bytes, since
/// UTF-8 keeps the order of code points.
pub open spec fn text_sign(a: Seq<char>, b: Seq<char>) -> int
    decreases a.len(),
{
    if a.len() == 0 && b.len() == 0 {
        0
    } else if a.len() == 0 {
        -1
    } else if b.len() == 0 {
        1
    } else if a[0] < b[0] {
        -1
    } else if b[0] < a[0] {
        1
    } else {
        text_sign(a.drop_first(), b.drop_first())
    }
}

/// How two lists of texts compare, text by text in [`text_sign`], a list
/// before any longer list that begins with it.
pub open spec fn texts_sign(a: Seq<Seq<char>>, b: Seq<Seq<char>>) -> int
    decreases a.len(),
{
    if a.len() == 0 && b.len() == 0 {
        0
    } else if a.len() == 0 {
        -1
    } else if b.len() == 0 {
        1
    } else if text_sign(a[0], b[0]) != 0 {
        text_sign(a[0], b[0])
    } else {
        texts_sign(a.drop_first(), b.drop_first())
    }
}

/// [`text_sign`] is -1, 0 or 1; it is 0 exactly for equal texts, and it
/// changes sign when the texts are swapped.
pub proof fn lemma_text_sign(a: Seq<char>, b: Seq<char>)
    ensures
        -1 <= text_sign(a, b) <= 1,
        text_sign(a, b) == 0 <==> a == b,
        text_sign(b, a) == -text_sign(a, b),
    decreases a.len(),
{
    if a.len() > 0 && b.len() > 0 && a[0] == b[0] {
        lemma_text_sign(a.drop_first(), b.drop_first());
        if a.drop_first() == b.drop_first() {
            assert(a =~= b) by {
                assert forall|i: int| 0 <= i < a.len() implies a[i] == b[i] by {
                    if i > 0 {
                        assert(a[i] == a.drop_first()[i - 1]);
                        assert(b[i] == b.drop_first()[i - 1]);
                    }
                }
            }
        }
    }
    if a.len() == 0 && b.len() == 0 {
        assert(a =~= b);
    }
}

/// A text before a second one that comes before a third also comes before
/// the third.
pub proof fn lemma_text_sign_transitive(a: Seq<char>, b: Seq<char>, c: Seq<char>)
    requires
        text_sign(a, b) == -1,
        text_sign(b, c) == -1,
    ensures
        text_sign(a, c) == -1,
    decreases a.len(),
{
    if a.len() > 0 && b.len() > 0 && c.len() > 0 && a[0] == b[0] && b[0] == c[0] {
        lemma_text_sign_transitive(a.drop_first(), b.drop_first(), c.drop_first());
    }
}

/// Texts are ordered character by character, whatever their lengths: where
/// two texts first differ, the one with the smaller character comes first.
pub proof fn lemma_text_sign_first_difference(a: Seq<char>, b: Seq<char>, i: int)
    requires
        0 <= i < a.len(),
        i < b.len(),
        forall|j: int| 0 <= j < i ==> a[j] == b[j],
        a[i] != b[i],
    ensures
        text_sign(a, b) == (if a[i] < b[i] {
            -1int
        } else {
            1int
        }),
    decreases i,
{
    if i > 0 {
        assert(a[0] == b[0]);
        let (ta, tb) = (a.drop_first(), b.drop_first());
        assert forall|j: int| 0 <= j < i - 1 implies ta[j] == tb[j] by {
            assert(a[j + 1] == b[j + 1]);
        }
        assert(ta[i - 1] == a[i] && tb[i - 1] == b[i]);
        lemma_text_sign_first_difference(ta, tb, i - 1);
    }
}

/// A text comes before every longer text that begins with it.
pub proof fn lemma_text_sign_prefix(a: Seq<char>, b: Seq<char>)
    requires
        a.len() < b.len(),
        forall|j: int| 0 <= j < a.len() ==> a[j] == b[j],
    ensures
        text_sign(a, b) == -1,
        text_sign(b, a) == 1,
    decreases a.len(),
{
    if a.len() > 0 {
        assert(a[0] == b[0]);
        let (ta, tb) = (a.drop_first(), b.drop_first());
        assert forall|j: int| 0 <= j < ta.len() implies ta[j] == tb[j] by {
            assert(a[j + 1] == b[j + 1]);
        }
        lemma_text_sign_prefix(ta, tb);
    }
}

/// Lists of texts are ordered text by text, whatever their lengths: where two
/// lists first differ, they compare as the texts there compare.
pub proof fn lemma_texts_sign_first_difference(a: Seq<Seq<char>>, b: Seq<Seq<char>>, i: int)
    requires
        0 <= i < a.len(),
        i < b.len(),
        forall|j: int| 0 <= j < i ==> a[j] == b[j],
        a[i] != b[i],
    ensures
        texts_sign(a, b) == text_sign(a[i], b[i]),
    decreases i,
{
    lemma_text_sign(a[0], b[0]);
    if i > 0 {
        assert(a[0] == b[0]);
        let (ta, tb) = (a.drop_first(), b.drop_first());
        assert forall|j: int| 0 <= j < i - 1 implies ta[j] == tb[j] by {
            assert(a[j + 1] == b[j + 1]);
        }
        assert(ta[i - 1] == a[i] && tb[i - 1] == b[i]);
        lemma_texts_sign_first_difference(ta, tb, i - 1);
    }
}

/// A list of texts comes before every longer list that begins with it.
pub proof fn lemma_texts_sign_prefix(a: Seq<Seq<char>>, b: Seq<Seq<char>>)
    requires
        a.len() < b.len(),
        forall|j: int| 0 <= j < a.len() ==> a[j] == b[j],
    ensures
        texts_sign(a, b) == -1,
        texts_sign(b, a) == 1,
    decreases a.len(),
{
    if a.len() > 0 {
        assert(a[0] == b[0]);
        lemma_text_sign(a[0], b[0]);
        let (ta, tb) = (a.drop_first(), b.drop_first());
        assert forall|j: int| 0 <= j < ta.len() implies ta[j] == tb[j] by {
            assert(a[j + 1] == b[j + 1]);
        }
        lemma_texts_sign_prefix(ta, tb);
    }
}

/// [`texts_sign`] is -1, 0 or 1; it is 0 exactly for equal lists, and it
/// changes sign when the lists are swapped.
pub proof fn lemma_texts_sign(a: Seq<Seq<char>>, b: Seq<Seq<char>>)
    ensures
        -1 <= texts_sign(a, b) <= 1,
        texts_sign(a, b) == 0 <==> a == b,
        texts_sign(b, a) == -texts_sign(a, b),
    decreases a.len(),
{
    if a.len() > 0 && b.len() > 0 {
        lemma_text_sign(a[0], b[0]);
        if a[0] == b[0] {
            lemma_texts_sign(a.drop_first(), b.drop_first());
            if a.drop_first() == b.drop_first() {
                assert(a =~= b) by {
                    assert forall|i: int| 0 <= i < a.len() implies a[i] == b[i] by {
                        if i > 0 {
                            assert(a[i] == a.drop_first()[i - 1]);
                            assert(b[i] == b.drop_first()[i - 1]);
                        }
                    }
                }
            }
        }
    }
    if a.len() == 0 && b.len() == 0 {
        assert(a =~= b);
    }
}

/// A list before a second one that comes before a third also comes before
/// the third.
pub proof fn lemma_texts_sign_transitive(a: Seq<Seq<char>>, b: Seq<Seq<char>>, c: Seq<Seq<char>>)
    requires
        texts_sign(a, b) == -1,
        texts_sign(b, c) == -1,
    ensures
        texts_sign(a, c) == -1,
    decreases a.len(),
{
    if a.len() > 0 && b.len() > 0 && c.len() > 0 {
        lemma_text_sign(a[0], b[0]);
        lemma_text_sign(b[0], c[0]);
        lemma_text_sign(a[0], c[0]);
        if a[0] == b[0] && b[0] == c[0] {
            lemma_texts_sign_transitive(a.drop_first(), b.drop_first(), c.drop_first());
        } else if a[0] == b[0] {
        } else if b[0] == c[0] {
        } else {
            lemma_text_sign_transitive(a[0], b[0], c[0]);
        }
    }
}

/// The texts are in strictly increasing [`text_sign`] order.
pub open spec fn texts_sorted(s: Seq<Seq<char>>) -> bool {
    forall|i: int, j: int|
        #![trigger s[i], s[j]]
        0 <= i < j < s.len() ==> text_sign(s[i], s[j]) == -1
}

/// Texts in strictly increasing order hold no text twice.
pub proof fn lemma_sorted_no_duplicates(s: Seq<Seq<char>>)
    requires
        texts_sorted(s),
    ensures
        s.no_duplicates(),
{
    assert forall|i: int, j: int| 0 <= i < s.len() && 0 <= j < s.len() && i != j implies s[i]
        != s[j] by {
        if i < j {
            lemma_text_sign(s[i], s[j]);
        } else {
            lemma_text_sign(s[j], s[i]);
        }
    }
}

/// Two lists of texts in strictly increasing order that hold the same texts
/// are the same list: the order of the texts is fixed by the set of them.
pub proof fn lemma_sorted_unique_by_set(a: Seq<Seq<char>>, b: Seq<Seq<char>>)
    requires
        texts_sorted(a),
        texts_sorted(b),
        a.to_set() == b.to_set(),
    ensures
        a == b,
    decreases a.len(),
{
    if a.len() == 0 {
        if b.len() > 0 {
            assert(b.to_set().contains(b[0]));
        }
        assert(a =~= b);
    } else {
        assert(a.to_set().contains(a[0]));
        assert(b.contains(a[0]));
        assert(b.len() > 0);
        assert(b.to_set().contains(b[0]));
        assert(a.contains(b[0]));
        let i = a.index_of(b[0]);
        let j = b.index_of(a[0]);
        if i > 0 && j > 0 {
            assert(text_sign(a[0], a[i]) == -1);
            assert(text_sign(b[0], b[j]) == -1);
            lemma_text_sign(a[0], b[0]);
        } else if i == 0 {
            assert(a[0] == b[0]);
        } else {
            assert(a[0] == b[0]);
        }
        lemma_sorted_no_duplicates(a);
        lemma_sorted_no_duplicates(b);
        let a1 = a.drop_first();
        let b1 = b.drop_first();
        assert forall|x: Seq<char>| a1.to_set().contains(x) implies b1.to_set().contains(x) by {
            let k = a1.index_of(x);
            assert(a[k + 1] == x);
            assert(a.to_set().contains(x));
            assert(b.to_set().contains(x));
            assert(b.contains(x));
            let m = b.index_of(x);
            assert(m != 0);
            assert(b1[m - 1] == x);
        }
        assert forall|x: Seq<char>| b1.to_set().contains(x) implies a1.to_set().contains(x) by {
            let k = b1.index_of(x);
            assert(b[k + 1] == x);
            assert(b.to_set().contains(x));
            assert(a.to_set().contains(x));
            assert(a.contains(x));
            let m = a.index_of(x);
            assert(m != 0);
            assert(a1[m - 1] == x);
        }
        assert(a1.to_set() =~= b1.to_set());
        lemma_sorted_unique_by_set(a1, b1);
        assert forall|k: int| 0 <= k < a.len() implies a[k] == b[k] by {
            if k > 0 {
                assert(a[k] == a1[k - 1]);
                assert(b[k] == b1[k - 1]);
            }
        }
        assert(a =~= b);
    }
}

/// Putting a text at the place where every text before it is smaller and the
/// next one is larger keeps the order.
pub proof fn lemma_sorted_insert(s: Seq<Seq<char>>, p: int, name: Seq<char>)
    requires
        texts_sorted(s),
        0 <= p <= s.len(),
        forall|j: int| 0 <= j < p ==> text_sign(#[trigger] s[j], name) == -1,
        p < s.len() ==> text_sign(s[p], name) == 1,
    ensures
        texts_sorted(s.insert(p, name)),
{
    let t = s.insert(p, name);
    if p < s.len() {
        lemma_text_sign(s[p], name);
    }
    assert forall|i: int, j: int| 0 <= i < j < t.len() implies text_sign(#[trigger] t[i], #[trigger] t[j])
        == -1 by {
        if i < p && j < p {
            assert(t[i] == s[i] && t[j] == s[j]);
        } else if i < p && j == p {
            assert(t[i] == s[i]);
        } else if i < p {
            assert(t[i] == s[i] && t[j] == s[j - 1]);
        } else if i == p {
            assert(t[j] == s[j - 1]);
            if j - 1 > p {
                assert(text_sign(s[p], s[j - 1]) == -1);
                lemma_text_sign_transitive(name, s[p], s[j - 1]);
            }
        } else {
            assert(t[i] == s[i - 1] && t[j] == s[j - 1]);
        }
    }
}

/// Compares two strings: the result is [`text_sign`] of their texts.
pub fn compare_text_sign(a: &String, b: &String) -> (r: i8)
    ensures
        r == text_sign(a@, b@),
{
    let sa = a.as_str();
    let sb = b.as_str();
    let la = sa.unicode_len();
    let lb = sb.unicode_len();
    let mut i: usize = 0;
    proof {
        assert(a@.skip(0) =~= a@);
        assert(b@.skip(0) =~= b@);
    }
    while i < la && i < lb
        invariant
            la == a@.len(),
            lb == b@.len(),
            sa@ == a@,
            sb@ == b@,
            i <= la,
            i <= lb,
            text_sign(a@, b@) == text_sign(a@.skip(i as int), b@.skip(i as int)),
        decreases la - i,
    {
        let ca = sa.get_char(i);
        let cb = sb.get_char(i);
        proof {
            assert(a@.skip(i as int)[0] == ca);
            assert(b@.skip(i as int)[0] == cb);
        }
        if ca < cb {
            return -1;
        }
        if cb < ca {
            return 1;
        }
        proof {
            assert(a@.skip(i as int).drop_first() =~= a@.skip(i + 1));
            assert(b@.skip(i as int).drop_first() =~= b@.skip(i + 1));
        }
        i = i + 1;
    }
    if i == la && i == lb {
        0
    } else if i == la {
        -1
    } else {
        1
    }
}

/// Compares two lists of strings: the result is [`texts_sign`] of their texts.
pub fn compare_texts_sign(a: &[String], b: &[String]) -> (r: i8)
    ensures
        r == texts_sign(texts(a@), texts(b@)),
{
    let la = a.len();
    let lb = b.len();
    let mut i: usize = 0;
    proof {
        assert(texts(a@).skip(0) =~= texts(a@));
        assert(texts(b@).skip(0) =~= texts(b@));
    }
    while i < la && i < lb
        invariant
            la == a@.len(),
            lb == b@.len(),
            i <= la,
            i <= lb,
            texts_sign(texts(a@), texts(b@)) == texts_sign(
                texts(a@).skip(i as int),
                texts(b@).skip(i as int),
            ),
        decreases la - i,
    {
        let s = compare_text_sign(&a[i], &b[i]);
        proof {
            assert(texts(a@).skip(i as int)[0] == a@[i as int]@);
            assert(texts(b@).skip(i as int)[0] == b@[i as int]@);
        }
        if s != 0 {
            return s;
        }
        proof {
            assert(texts(a@).skip(i as int).drop_first() =~= texts(a@).skip(i + 1));
            assert(texts(b@).skip(i as int).drop_first() =~= texts(b@).skip(i + 1));
        }
        i = i + 1;
    }
    if i == la && i == lb {
        0
    } else if i == la {
        -1
    } else {
        1
    }
}

/// A sequence with one more element contains that element and what it held.
pub proof fn lemma_push_contains(names: Seq<Seq<char>>, key: Seq<char>, k: Seq<char>)
    ensures
        names.push(key).contains(k) <==> names.contains(k) || k == key,
{
    if names.push(key).contains(k) {
        let j = names.push(key).index_of(k);
        if j < names.len() {
            assert(names[j] == k);
        }
    }
    if names.contains(k) {
        let j = names.index_of(k);
        assert(names.push(key)[j] == k);
    }
    if k == key {
        assert(names.push(key)[names.len() as int] == k);
    }
}

} // verus!
