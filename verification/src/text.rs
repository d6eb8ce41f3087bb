use vstd::prelude::*;

verus! {

/// Strict lexicographic order on texts, character by character.
///
/// Characters are compared by code point, which is also the order of the
/// UTF-8 bytes that encode them; a proper prefix comes before the longer text.
pub open spec fn text_lt(a: Seq<char>, b: Seq<char>) -> bool
    decreases a.len(),
{
    if a.len() == 0 {
        b.len() > 0
    } else if b.len() == 0 {
        false
    } else if (a[0] as u32) < (b[0] as u32) {
        true
    } else if a[0] == b[0] {
        text_lt(a.drop_first(), b.drop_first())
    } else {
        false
    }
}

/// Every element comes strictly before every later element.
pub open spec fn strictly_sorted(s: Seq<Seq<char>>) -> bool {
    forall|i: int, j: int| 0 <= i < j < s.len() ==> text_lt(#[trigger] s[i], #[trigger] s[j])
}

/// The texts that a vector of strings holds.
pub open spec fn texts(v: Seq<String>) -> Seq<Seq<char>> {
    v.map_values(|s: String| s@)
}

/// The outcome of comparing two texts.
#[derive(Clone, Copy, Debug, PartialEq, Eq, Structural)]
pub enum TextOrder {
    Less,
    Equal,
    Greater,
}

/// No text comes before itself.
pub proof fn lemma_text_lt_irreflexive(a: Seq<char>)
    ensures
        !text_lt(a, a),
    decreases a.len(),
{
    if a.len() > 0 {
        lemma_text_lt_irreflexive(a.drop_first());
    }
}

/// The order is transitive.
pub proof fn lemma_text_lt_transitive(a: Seq<char>, b: Seq<char>, c: Seq<char>)
    requires
        text_lt(a, b),
        text_lt(b, c),
    ensures
        text_lt(a, c),
    decreases a.len(),
{
    if a.len() > 0 && b.len() > 0 && c.len() > 0 {
        if a[0] == b[0] && b[0] == c[0] {
            lemma_text_lt_transitive(a.drop_first(), b.drop_first(), c.drop_first());
        }
    }
}

/// Two different texts are ordered one way or the other, and never both ways.
pub proof fn lemma_text_lt_total(a: Seq<char>, b: Seq<char>)
    ensures
        a != b ==> (text_lt(a, b) || text_lt(b, a)),
        !(text_lt(a, b) && text_lt(b, a)),
    decreases a.len(),
{
    if a.len() > 0 && b.len() > 0 {
        lemma_text_lt_total(a.drop_first(), b.drop_first());
        vstd::utf8::char_u32_cast(a[0], a[0] as u32);
        vstd::utf8::char_u32_cast(b[0], b[0] as u32);
        if a[0] == b[0] && a.drop_first() == b.drop_first() {
            assert(a =~= seq![a[0]] + a.drop_first());
            assert(b =~= seq![b[0]] + b.drop_first());
        }
    } else if a.len() == 0 && b.len() == 0 {
        assert(a =~= b);
    }
}

/// Texts that share a prefix compare as what follows the prefix does.
proof fn lemma_text_lt_common_prefix(a: Seq<char>, b: Seq<char>, n: int)
    requires
        0 <= n <= a.len(),
        n <= b.len(),
        a.subrange(0, n) == b.subrange(0, n),
    ensures
        text_lt(a, b) == text_lt(a.skip(n), b.skip(n)),
    decreases n,
{
    if n > 0 {
        assert(a[0] == a.subrange(0, n)[0]);
        assert(b[0] == b.subrange(0, n)[0]);
        assert(a.drop_first().subrange(0, n - 1) =~= a.subrange(0, n).drop_first());
        assert(b.drop_first().subrange(0, n - 1) =~= b.subrange(0, n).drop_first());
        lemma_text_lt_common_prefix(a.drop_first(), b.drop_first(), n - 1);
        assert(a.drop_first().skip(n - 1) =~= a.skip(n));
        assert(b.drop_first().skip(n - 1) =~= b.skip(n));
    } else {
        assert(a.skip(0) =~= a);
        assert(b.skip(0) =~= b);
    }
}

/// `a` is a proper prefix of `b`.
pub open spec fn proper_prefix(a: Seq<char>, b: Seq<char>) -> bool {
    a.len() < b.len() && b.take(a.len() as int) == a
}

/// At index `k` the two texts first differ, and there `a` holds the
/// character with the smaller code point.
pub open spec fn first_difference_smaller(a: Seq<char>, b: Seq<char>, k: int) -> bool {
    0 <= k < a.len() && k < b.len() && a.take(k) == b.take(k) && (a[k] as u32) < (b[k] as u32)
}

/// The order is lexicographic, whatever the lengths: `a` comes before `b`
/// exactly when it is a proper prefix of `b`, or when at the first index
/// where they differ `a` has the smaller character.
pub proof fn law_text_lt_lexicographic(a: Seq<char>, b: Seq<char>)
    ensures
        text_lt(a, b) <==> (proper_prefix(a, b) || exists|k: int|
            #[trigger] first_difference_smaller(a, b, k)),
    decreases a.len(),
{
    if proper_prefix(a, b) {
        let n = a.len() as int;
        assert(a.subrange(0, n) =~= a);
        lemma_text_lt_common_prefix(a, b, n);
        assert(a.skip(n).len() == 0);
    }
    if exists|k: int| #[trigger] first_difference_smaller(a, b, k) {
        let k = choose|k: int| #[trigger] first_difference_smaller(a, b, k);
        lemma_text_lt_common_prefix(a, b, k);
        assert(a.skip(k)[0] == a[k]);
        assert(b.skip(k)[0] == b[k]);
    }
    if text_lt(a, b) && a.len() > 0 {
        if (a[0] as u32) < (b[0] as u32) {
            assert(a.take(0) =~= b.take(0));
            assert(first_difference_smaller(a, b, 0));
        } else {
            let a1 = a.drop_first();
            let b1 = b.drop_first();
            law_text_lt_lexicographic(a1, b1);
            assert(b.len() > 0 && a[0] == b[0]);
            if proper_prefix(a1, b1) {
                assert(a =~= seq![a[0]] + a1);
                assert(b.take(a.len() as int) =~= seq![b[0]] + b1.take(a1.len() as int));
                assert(b.take(a.len() as int) =~= a);
            } else {
                let k = choose|k: int| #[trigger] first_difference_smaller(a1, b1, k);
                assert(a.take(k + 1) =~= seq![a[0]] + a1.take(k));
                assert(b.take(k + 1) =~= seq![b[0]] + b1.take(k));
                assert(first_difference_smaller(a, b, k + 1));
            }
        }
    }
    if text_lt(a, b) && a.len() == 0 {
        assert(b.take(0) =~= a);
    }
}

/// Texts whose first characters differ are ordered by those characters,
/// whatever their lengths.
pub proof fn law_text_lt_first_character(a: Seq<char>, b: Seq<char>)
    requires
        a.len() > 0,
        b.len() > 0,
        (a[0] as u32) < (b[0] as u32),
    ensures
        text_lt(a, b),
        !text_lt(b, a),
{
    assert(a.take(0) =~= b.take(0));
    assert(first_difference_smaller(a, b, 0));
    law_text_lt_lexicographic(a, b);
    lemma_text_lt_total(a, b);
}

/// A proper prefix comes before the longer text.
pub proof fn law_text_lt_prefix_first(a: Seq<char>, b: Seq<char>)
    requires
        proper_prefix(a, b),
    ensures
        text_lt(a, b),
        !text_lt(b, a),
{
    law_text_lt_lexicographic(a, b);
    lemma_text_lt_total(a, b);
}

/// Compares two texts character by character.
pub fn compare_text(a: &str, b: &str) -> (r: TextOrder)
    ensures
        (r == TextOrder::Less) == text_lt(a@, b@),
        (r == TextOrder::Equal) == (a@ == b@),
        (r == TextOrder::Greater) == text_lt(b@, a@),
{
    proof {
        lemma_text_lt_total(a@, b@);
        lemma_text_lt_irreflexive(a@);
    }
    let la = a.unicode_len();
    let lb = b.unicode_len();
    let mut i: usize = 0;
    while i < la && i < lb
        invariant
            la == a@.len(),
            lb == b@.len(),
            i <= la,
            i <= lb,
            a@.subrange(0, i as int) == b@.subrange(0, i as int),
        decreases la - i,
    {
        let ca = a.get_char(i);
        let cb = b.get_char(i);
        if (ca as u32) < (cb as u32) || (cb as u32) < (ca as u32) {
            proof {
                lemma_text_lt_common_prefix(a@, b@, i as int);
                lemma_text_lt_common_prefix(b@, a@, i as int);
                assert(a@.skip(i as int)[0] == ca);
                assert(b@.skip(i as int)[0] == cb);
                assert(a@ != b@ || ca == cb);
            }
            if (ca as u32) < (cb as u32) {
                return TextOrder::Less;
            } else {
                return TextOrder::Greater;
            }
        }
        assert(ca == cb);
        assert(a@.subrange(0, i + 1) =~= a@.subrange(0, i as int).push(ca));
        assert(b@.subrange(0, i + 1) =~= b@.subrange(0, i as int).push(cb));
        i = i + 1;
    }
    proof {
        lemma_text_lt_common_prefix(a@, b@, i as int);
        lemma_text_lt_common_prefix(b@, a@, i as int);
        if la == lb {
            assert(a@ =~= a@.subrange(0, i as int));
            assert(b@ =~= b@.subrange(0, i as int));
        } else {
            assert(a@.len() != b@.len());
        }
    }
    if la == lb {
        TextOrder::Equal
    } else if la < lb {
        TextOrder::Less
    } else {
        TextOrder::Greater
    }
}

/// Two strictly sorted sequences that hold the same texts are the same sequence.
pub proof fn lemma_strictly_sorted_unique(a: Seq<Seq<char>>, b: Seq<Seq<char>>)
    requires
        strictly_sorted(a),
        strictly_sorted(b),
        forall|k: Seq<char>| a.contains(k) <==> b.contains(k),
    ensures
        a == b,
    decreases a.len(),
{
    if a.len() == 0 {
        if b.len() > 0 {
            assert(b.contains(b[0]));
        }
        assert(a =~= b);
    } else {
        assert(a.contains(a[0]));
        let j = choose|j: int| 0 <= j < b.len() && b[j] == a[0];
        assert(b.contains(b[0]));
        let i = choose|i: int| 0 <= i < a.len() && a[i] == b[0];
        if j > 0 {
            assert(text_lt(b[0], b[j]));
            if i > 0 {
                assert(text_lt(a[0], a[i]));
                lemma_text_lt_total(a[0], b[0]);
            } else {
                lemma_text_lt_irreflexive(a[0]);
            }
        }
        assert(a[0] == b[0]);
        let a1 = a.drop_first();
        let b1 = b.drop_first();
        assert forall|k: Seq<char>| a1.contains(k) <==> b1.contains(k) by {
            if a1.contains(k) {
                let x = choose|x: int| 0 <= x < a1.len() && a1[x] == k;
                assert(text_lt(a[0], a[x + 1]));
                lemma_text_lt_irreflexive(a[0]);
                assert(a.contains(k));
                let y = choose|y: int| 0 <= y < b.len() && b[y] == k;
                assert(y != 0);
                assert(b1[y - 1] == k);
            }
            if b1.contains(k) {
                let x = choose|x: int| 0 <= x < b1.len() && b1[x] == k;
                assert(text_lt(b[0], b[x + 1]));
                lemma_text_lt_irreflexive(b[0]);
                assert(b.contains(k));
                let y = choose|y: int| 0 <= y < a.len() && a[y] == k;
                assert(y != 0);
                assert(a1[y - 1] == k);
            }
        }
        lemma_strictly_sorted_unique(a1, b1);
        assert(a =~= seq![a[0]] + a1);
        assert(b =~= seq![b[0]] + b1);
    }
}

/// Inserts `key` into the strictly sorted `keys`, unless it is there already.
pub fn insert_sorted_text(keys: &mut Vec<String>, key: &String)
    requires
        strictly_sorted(texts(old(keys)@)),
    ensures
        strictly_sorted(texts(final(keys)@)),
        forall|k: Seq<char>|
            texts(final(keys)@).contains(k) <==> (texts(old(keys)@).contains(k) || k == key@),
{
    let n = keys.len();
    let mut pos: usize = 0;
    let mut found = false;
    while pos < n
        invariant
            n == keys.len(),
            pos <= n,
            strictly_sorted(texts(keys@)),
            forall|x: int| 0 <= x < pos ==> text_lt(#[trigger] keys@[x]@, key@),
        ensures
            pos <= n,
            forall|x: int| 0 <= x < pos ==> text_lt(#[trigger] keys@[x]@, key@),
            pos < n ==> !text_lt(keys@[pos as int]@, key@),
        decreases n - pos,
    {
        match compare_text(keys[pos].as_str(), key.as_str()) {
            TextOrder::Less => {
                pos = pos + 1;
            },
            _ => {
                break;
            },
        }
    }
    if pos < n {
        if compare_text(keys[pos].as_str(), key.as_str()) == TextOrder::Equal {
            found = true;
        }
    }
    let ghost old_texts = texts(keys@);
    if found {
        assert(old_texts.contains(key@)) by {
            assert(old_texts[pos as int] == key@);
        }
        return;
    }
    proof {
        if pos < n {
            lemma_text_lt_total(keys@[pos as int]@, key@);
        }
    }
    keys.insert(pos, key.clone());
    proof {
        let t = texts(keys@);
        assert(t =~= old_texts.insert(pos as int, key@));
        assert forall|i: int, j: int| 0 <= i < j < t.len() implies text_lt(
            #[trigger] t[i],
            #[trigger] t[j],
        ) by {
            if j < pos {
                assert(text_lt(old_texts[i], old_texts[j]));
            } else if j == pos {
                assert(text_lt(keys@[i]@, key@));
            } else if i == pos {
                if j - 1 > pos {
                    assert(text_lt(old_texts[pos as int], old_texts[j - 1]));
                    lemma_text_lt_transitive(key@, old_texts[pos as int], old_texts[j - 1]);
                }
            } else if i < pos {
                assert(text_lt(old_texts[i], key@));
                if j - 1 > pos {
                    assert(text_lt(old_texts[pos as int], old_texts[j - 1]));
                    lemma_text_lt_transitive(key@, old_texts[pos as int], old_texts[j - 1]);
                }
                lemma_text_lt_transitive(old_texts[i], key@, old_texts[j - 1]);
            } else {
                assert(text_lt(old_texts[i - 1], old_texts[j - 1]));
            }
        }
        assert forall|k: Seq<char>| t.contains(k) <==> (old_texts.contains(k) || k == key@) by {
            if t.contains(k) {
                let x = choose|x: int| 0 <= x < t.len() && t[x] == k;
                if x < pos {
                    assert(old_texts[x] == k);
                } else if x > pos {
                    assert(old_texts[x - 1] == k);
                }
            }
            if old_texts.contains(k) {
                let x = choose|x: int| 0 <= x < old_texts.len() && old_texts[x] == k;
                if x < pos {
                    assert(t[x] == k);
                } else {
                    assert(t[x + 1] == k);
                }
            }
            if k == key@ {
                assert(t[pos as int] == k);
            }
        }
    }
}

/// `s` with `k` put in its place, unless `s` holds it already.
pub open spec fn insert_text(s: Seq<Seq<char>>, k: Seq<char>) -> Seq<Seq<char>>
    decreases s.len(),
{
    if s.len() == 0 {
        seq![k]
    } else if s[0] == k {
        s
    } else if text_lt(k, s[0]) {
        seq![k] + s
    } else {
        seq![s[0]] + insert_text(s.drop_first(), k)
    }
}

/// The texts of `s`, each once, in increasing order.
pub open spec fn sorted_distinct(s: Seq<Seq<char>>) -> Seq<Seq<char>>
    decreases s.len(),
{
    if s.len() == 0 {
        Seq::empty()
    } else {
        insert_text(sorted_distinct(s.drop_last()), s.last())
    }
}

/// Inserting into a strictly sorted sequence keeps it strictly sorted and
/// adds exactly the inserted text.
pub proof fn lemma_insert_text(s: Seq<Seq<char>>, k: Seq<char>)
    requires
        strictly_sorted(s),
    ensures
        strictly_sorted(insert_text(s, k)),
        forall|x: Seq<char>|
            #![trigger insert_text(s, k).contains(x)]
            #![trigger s.contains(x)]
            insert_text(s, k).contains(x) <==> (s.contains(x) || x == k),
    decreases s.len(),
{
    let r = insert_text(s, k);
    if s.len() == 0 {
        assert(r =~= seq![k]);
        assert forall|x: Seq<char>| r.contains(x) <==> (s.contains(x) || x == k) by {
            if r.contains(x) {
                assert(r[0] == x);
            }
            if x == k {
                assert(r[0] == k);
            }
        }
    } else if s[0] == k {
    } else if text_lt(k, s[0]) {
        assert forall|i: int, j: int| 0 <= i < j < r.len() implies text_lt(
            #[trigger] r[i],
            #[trigger] r[j],
        ) by {
            if i == 0 {
                if j > 1 {
                    assert(text_lt(s[0], s[j - 1]));
                    lemma_text_lt_transitive(k, s[0], s[j - 1]);
                }
            } else {
                assert(text_lt(s[i - 1], s[j - 1]));
            }
        }
        assert forall|x: Seq<char>| r.contains(x) <==> (s.contains(x) || x == k) by {
            if r.contains(x) {
                let i = choose|i: int| 0 <= i < r.len() && r[i] == x;
                if i > 0 {
                    assert(s[i - 1] == x);
                }
            }
            if s.contains(x) {
                let i = choose|i: int| 0 <= i < s.len() && s[i] == x;
                assert(r[i + 1] == x);
            }
            if x == k {
                assert(r[0] == x);
            }
        }
    } else {
        let t = s.drop_first();
        assert forall|i: int, j: int| 0 <= i < j < t.len() implies text_lt(
            #[trigger] t[i],
            #[trigger] t[j],
        ) by {
            assert(text_lt(s[i + 1], s[j + 1]));
        }
        lemma_insert_text(t, k);
        let u = insert_text(t, k);
        lemma_text_lt_total(k, s[0]);
        assert(r =~= seq![s[0]] + u);
        assert forall|i: int, j: int| 0 <= i < j < r.len() implies text_lt(
            #[trigger] r[i],
            #[trigger] r[j],
        ) by {
            if i == 0 {
                assert(r[j] == u[j - 1]);
                assert(u.contains(r[j]));
                if r[j] != k {
                    assert(t.contains(r[j]));
                    let x = choose|x: int| 0 <= x < t.len() && t[x] == r[j];
                    assert(s[x + 1] == t[x]);
                    assert(text_lt(s[0], s[x + 1]));
                }
            } else {
                assert(text_lt(u[i - 1], u[j - 1]));
            }
        }
        assert forall|x: Seq<char>| r.contains(x) <==> (s.contains(x) || x == k) by {
            if r.contains(x) {
                let i = choose|i: int| 0 <= i < r.len() && r[i] == x;
                if i > 0 {
                    assert(u.contains(x)) by {
                        assert(u[i - 1] == x);
                    }
                    if t.contains(x) {
                        let y = choose|y: int| 0 <= y < t.len() && t[y] == x;
                        assert(s[y + 1] == x);
                    }
                } else {
                    assert(s[0] == x);
                }
            }
            if s.contains(x) {
                let i = choose|i: int| 0 <= i < s.len() && s[i] == x;
                if i == 0 {
                    assert(r[0] == x);
                } else {
                    assert(t[i - 1] == x);
                    assert(t.contains(x));
                    let y = choose|y: int| 0 <= y < u.len() && u[y] == x;
                    assert(r[y + 1] == x);
                }
            }
            if x == k {
                assert(u.contains(k));
                let y = choose|y: int| 0 <= y < u.len() && u[y] == k;
                assert(r[y + 1] == k);
            }
        }
    }
}

/// `sorted_distinct(s)` is strictly sorted and holds exactly the texts of `s`.
pub proof fn lemma_sorted_distinct(s: Seq<Seq<char>>)
    ensures
        strictly_sorted(sorted_distinct(s)),
        forall|x: Seq<char>|
            #![trigger sorted_distinct(s).contains(x)]
            #![trigger s.contains(x)]
            sorted_distinct(s).contains(x) <==> s.contains(x),
    decreases s.len(),
{
    if s.len() > 0 {
        let init = s.drop_last();
        lemma_sorted_distinct(init);
        lemma_insert_text(sorted_distinct(init), s.last());
        assert forall|x: Seq<char>| sorted_distinct(s).contains(x) <==> s.contains(x) by {
            if init.contains(x) {
                let i = choose|i: int| 0 <= i < init.len() && init[i] == x;
                assert(s[i] == x);
            }
            if s.contains(x) {
                let i = choose|i: int| 0 <= i < s.len() && s[i] == x;
                if i < s.len() - 1 {
                    assert(init[i] == x);
                }
            }
        }
    }
}

} // verus!
