//! Text building blocks: decimal rendering, joining, concatenation and the
//! lexicographic order that `String` sorting follows.
use vstd::prelude::*;
use vstd::seq_lib::{to_multiset_contains, to_multiset_len, to_multiset_remove};
use vstd::string::StringExecFns;

verus! {

/// The ASCII digit for a value below ten.
pub open spec fn digit_char(d: nat) -> char {
    if d == 0 { '0' }
    else if d == 1 { '1' }
    else if d == 2 { '2' }
    else if d == 3 { '3' }
    else if d == 4 { '4' }
    else if d == 5 { '5' }
    else if d == 6 { '6' }
    else if d == 7 { '7' }
    else if d == 8 { '8' }
    else { '9' }
}

/// Decimal notation of a natural number, without leading zeros.
pub open spec fn decimal(n: nat) -> Seq<char>
    decreases n,
{
    if n < 10 {
        seq![digit_char(n)]
    } else {
        decimal(n / 10) + seq![digit_char(n % 10)]
    }
}

/// Decimal notation of a signed number, with a leading `-` when negative.
pub open spec fn signed_decimal(n: int) -> Seq<char> {
    if n < 0 {
        seq!['-'] + decimal((-n) as nat)
    } else {
        decimal(n as nat)
    }
}

/// `parts` glued together in order.
pub open spec fn concat(parts: Seq<Seq<char>>) -> Seq<char>
    decreases parts.len(),
{
    if parts.len() == 0 {
        Seq::empty()
    } else {
        concat(parts.drop_last()) + parts.last()
    }
}

/// `parts` joined in order, with `sep` between two neighbours.
pub open spec fn join(parts: Seq<Seq<char>>, sep: Seq<char>) -> Seq<char>
    decreases parts.len(),
{
    if parts.len() == 0 {
        Seq::empty()
    } else if parts.len() == 1 {
        parts[0]
    } else {
        join(parts.drop_last(), sep) + sep + parts.last()
    }
}

/// Lexicographic order on character sequences, by code point. On strings it is
/// the order of `String`'s `Ord`, which compares the UTF-8 bytes: UTF-8 keeps
/// the order of code points.
pub open spec fn text_le(a: Seq<char>, b: Seq<char>) -> bool
    decreases a.len(),
{
    if a.len() == 0 {
        true
    } else if b.len() == 0 {
        false
    } else if (a[0] as int) < (b[0] as int) {
        true
    } else if (a[0] as int) > (b[0] as int) {
        false
    } else {
        text_le(a.drop_first(), b.drop_first())
    }
}

/// Every element is at most the next one.
pub open spec fn is_sorted_text(s: Seq<Seq<char>>) -> bool {
    forall|i: int, j: int| 0 <= i < j < s.len() ==> text_le(s[i], s[j])
}

/// The contents of a vector of strings, as character sequences.
pub open spec fn texts_of(v: Seq<String>) -> Seq<Seq<char>> {
    v.map_values(|s: String| s@)
}

/// `s` is `base` put in ascending order.
pub open spec fn is_sorted_permutation(s: Seq<Seq<char>>, base: Seq<Seq<char>>) -> bool {
    is_sorted_text(s) && s.to_multiset() == base.to_multiset()
}

/// Relies on `slice::sort` for `String`: the elements end up in ascending
/// order of `String`'s `Ord`, and are the same elements as before.
#[verifier::external_body]
pub(crate) fn sort_strings(v: &mut Vec<String>)
    ensures
        is_sorted_permutation(texts_of(final(v)@), texts_of(old(v)@)),
{
    v.sort();
}

fn digit_str(d: u64) -> (r: &'static str)
    requires
        d < 10,
    ensures
        r@ == seq![digit_char(d as nat)],
{
    if d == 0 {
        proof { reveal_strlit("0"); }
        "0"
    } else if d == 1 {
        proof { reveal_strlit("1"); }
        "1"
    } else if d == 2 {
        proof { reveal_strlit("2"); }
        "2"
    } else if d == 3 {
        proof { reveal_strlit("3"); }
        "3"
    } else if d == 4 {
        proof { reveal_strlit("4"); }
        "4"
    } else if d == 5 {
        proof { reveal_strlit("5"); }
        "5"
    } else if d == 6 {
        proof { reveal_strlit("6"); }
        "6"
    } else if d == 7 {
        proof { reveal_strlit("7"); }
        "7"
    } else if d == 8 {
        proof { reveal_strlit("8"); }
        "8"
    } else {
        proof { reveal_strlit("9"); }
        "9"
    }
}

/// Appends the decimal notation of `n` to `out`.
pub fn push_decimal(out: &mut String, n: u64)
    ensures
        final(out)@ == old(out)@ + decimal(n as nat),
    decreases n,
{
    if n >= 10 {
        push_decimal(out, n / 10);
    }
    out.append(digit_str(n % 10));
    assert(final(out)@ =~= old(out)@ + decimal(n as nat));
}

/// Appends the decimal notation of a signed `n` to `out`.
pub fn push_signed_decimal(out: &mut String, n: i32)
    ensures
        final(out)@ == old(out)@ + signed_decimal(n as int),
{
    if n < 0 {
        proof { reveal_strlit("-"); }
        out.append("-");
        let m: i64 = -(n as i64);
        push_decimal(out, m as u64);
        assert(final(out)@ =~= old(out)@ + signed_decimal(n as int));
    } else {
        push_decimal(out, n as u64);
    }
}

/// The decimal notation of `n` as a new string.
pub fn decimal_string(n: u64) -> (r: String)
    ensures
        r@ == decimal(n as nat),
{
    let mut s = String::new();
    push_decimal(&mut s, n);
    assert(s@ =~= decimal(n as nat));
    s
}

/// `text_le` is antisymmetric.
pub proof fn lemma_text_le_antisymmetric(a: Seq<char>, b: Seq<char>)
    requires
        text_le(a, b),
        text_le(b, a),
    ensures
        a == b,
    decreases a.len(),
{
    if a.len() == 0 {
        assert(a =~= b);
    } else {
        lemma_text_le_antisymmetric(a.drop_first(), b.drop_first());
        assert(a.len() == b.len());
        assert forall|i: int| 0 <= i < a.len() implies a[i] == b[i] by {
            if i > 0 {
                assert(a[i] == a.drop_first()[i - 1]);
                assert(b[i] == b.drop_first()[i - 1]);
            } else {
                assert(b.len() > 0);
                assert((a[0] as int) == (b[0] as int));
            }
        }
        assert(a =~= b);
    }
}

/// A sequence has at most one ascending arrangement: two sorted sequences
/// with the same elements are equal.
pub proof fn lemma_sorted_permutation_unique(q1: Seq<Seq<char>>, q2: Seq<Seq<char>>)
    requires
        is_sorted_text(q1),
        is_sorted_text(q2),
        q1.to_multiset() == q2.to_multiset(),
    ensures
        q1 == q2,
    decreases q1.len(),
{
    to_multiset_len(q1);
    to_multiset_len(q2);
    if q1.len() == 0 {
        assert(q1 =~= q2);
    } else {
        let x = q1[0];
        let y = q2[0];
        assert(q1.contains(x));
        assert(q2.contains(y));
        to_multiset_contains(q1, x);
        to_multiset_contains(q2, x);
        to_multiset_contains(q1, y);
        to_multiset_contains(q2, y);
        let j = choose|j: int| 0 <= j < q2.len() && q2[j] == x;
        let i = choose|i: int| 0 <= i < q1.len() && q1[i] == y;
        if j > 0 && i > 0 {
            lemma_text_le_antisymmetric(x, y);
        }
        assert(x == y);
        to_multiset_remove(q1, 0);
        to_multiset_remove(q2, 0);
        assert(q1.remove(0) =~= q1.drop_first());
        assert(q2.remove(0) =~= q2.drop_first());
        lemma_sorted_permutation_unique(q1.drop_first(), q2.drop_first());
        assert forall|k: int| 0 <= k < q1.len() implies q1[k] == q2[k] by {
            if k > 0 {
                assert(q1[k] == q1.drop_first()[k - 1]);
                assert(q2[k] == q2.drop_first()[k - 1]);
            }
        }
        assert(q1 =~= q2);
    }
}

} // verus!
