//! Decimal digits and the labels seats are printed with.
use vstd::prelude::*;

verus! {

/// The character of a decimal digit.
pub open spec fn digit_char(d: int) -> char {
    if d == 0 { '0' }
    else if d == 1 { '1' }
    else if d == 2 { '2' }
    else if d == 3 { '3' }
    else if d == 4 { '4' }
    else if d == 5 { '5' }
    else if d == 6 { '6' }
    else if d == 7 { '7' }
    else if d == 8 { '8' }
    else { '9' }
}

pub open spec fn is_digit(c: char) -> bool {
    '0' <= c && c <= '9'
}

/// The value of a decimal digit character.
pub open spec fn digit_value(c: char) -> int {
    c as int - '0' as int
}

/// The shortest decimal writing of `n`.
pub open spec fn decimal(n: nat) -> Seq<char>
    decreases n,
{
    if n < 10 {
        seq![digit_char(n as int)]
    } else {
        decimal(n / 10).push(digit_char((n % 10) as int))
    }
}

/// The number a string of decimal digits stands for.
pub open spec fn decimal_value(s: Seq<char>) -> int
    decreases s.len(),
{
    if s.len() == 0 {
        0
    } else {
        decimal_value(s.drop_last()) * 10 + digit_value(s.last())
    }
}

pub open spec fn zeros(k: nat) -> Seq<char> {
    Seq::new(k, |_i: int| '0')
}

/// `n` in decimal, with zeros in front up to four digits.
pub open spec fn padded(n: nat) -> Seq<char> {
    let d = decimal(n);
    if d.len() < 4 { zeros((4 - d.len()) as nat) + d } else { d }
}

/// The label of the `n`-th seat of an event: `S` and the padded number.
pub open spec fn seat_label_text(n: nat) -> Seq<char> {
    seq!['S'] + padded(n)
}

pub proof fn lemma_digit_char(d: int)
    requires
        0 <= d < 10,
    ensures
        is_digit(digit_char(d)),
        digit_value(digit_char(d)) == d,
{
}

pub proof fn lemma_decimal(n: nat)
    ensures
        decimal_value(decimal(n)) == n,
        decimal(n).len() >= 1,
        n < 10 ==> decimal(n).len() == 1,
        10 <= n < 100 ==> decimal(n).len() == 2,
        100 <= n < 1000 ==> decimal(n).len() == 3,
        1000 <= n ==> decimal(n).len() >= 4,
        forall|i: int| 0 <= i < decimal(n).len() ==> is_digit(#[trigger] decimal(n)[i]),
    decreases n,
{
    if n < 10 {
        lemma_digit_char(n as int);
        let s = decimal(n);
        assert(s.drop_last() =~= Seq::<char>::empty());
        assert(s.last() == digit_char(n as int));
        assert(decimal_value(s) == decimal_value(s.drop_last()) * 10 + digit_value(s.last()));
    } else {
        lemma_decimal(n / 10);
        lemma_digit_char((n % 10) as int);
        let s = decimal(n);
        assert(s.drop_last() =~= decimal(n / 10));
        assert(s.last() == digit_char((n % 10) as int));
        assert(decimal_value(s) == decimal_value(s.drop_last()) * 10 + digit_value(s.last()));
        assert(n == (n / 10) * 10 + n % 10) by (nonlinear_arith);
    }
}

pub proof fn lemma_zeros_value(k: nat, d: Seq<char>)
    ensures
        decimal_value(zeros(k) + d) == decimal_value(d),
    decreases d.len(), k,
{
    if d.len() == 0 {
        assert(zeros(k) + d =~= zeros(k));
        if k > 0 {
            assert(zeros(k).drop_last() =~= zeros((k - 1) as nat));
            lemma_zeros_value((k - 1) as nat, d);
            assert(zeros((k - 1) as nat) + d =~= zeros((k - 1) as nat));
        }
    } else {
        assert((zeros(k) + d).drop_last() =~= zeros(k) + d.drop_last());
        lemma_zeros_value(k, d.drop_last());
    }
}

pub proof fn lemma_padded_value(n: nat)
    ensures
        decimal_value(padded(n)) == n,
{
    lemma_decimal(n);
    let d = decimal(n);
    if d.len() < 4 {
        lemma_zeros_value((4 - d.len()) as nat, d);
    }
}

/// Different seat numbers get different labels, however many seats there are.
pub proof fn law_seat_labels_distinct(a: nat, b: nat)
    requires
        a != b,
    ensures
        seat_label_text(a) != seat_label_text(b),
{
    lemma_padded_value(a);
    lemma_padded_value(b);
    if seat_label_text(a) == seat_label_text(b) {
        assert(seat_label_text(a).drop_first() =~= padded(a));
        assert(seat_label_text(b).drop_first() =~= padded(b));
    }
}

/// Up to 9999, a padded number has four digit characters.
proof fn lemma_padded_four_digits(n: nat)
    requires
        n <= 9999,
    ensures
        padded(n).len() == 4,
        forall|i: int| 0 <= i < 4 ==> is_digit(#[trigger] padded(n)[i]),
        decimal_value(padded(n)) == n,
{
    lemma_decimal(n);
    lemma_padded_value(n);
    let d = decimal(n);
    if n >= 1000 {
        lemma_decimal(n / 10);
        assert(d == decimal(n / 10).push(digit_char((n % 10) as int)));
        assert(d.len() == 4);
    } else {
        let z = zeros((4 - d.len()) as nat);
        assert forall|i: int| 0 <= i < 4 implies is_digit(#[trigger] padded(n)[i]) by {
            if i < z.len() {
                assert(padded(n)[i] == z[i]);
            } else {
                assert(padded(n)[i] == d[i - z.len()]);
            }
        }
    }
}

/// The value of four digits, place by place.
proof fn lemma_value_of_four(s: Seq<char>)
    requires
        s.len() == 4,
    ensures
        decimal_value(s) == 1000 * digit_value(s[0]) + 100 * digit_value(s[1]) + 10 * digit_value(s[2])
            + digit_value(s[3]),
{
    let s3 = s.drop_last();
    let s2 = s3.drop_last();
    let s1 = s2.drop_last();
    let s0 = s1.drop_last();
    assert(s0.len() == 0);
    assert(decimal_value(s0) == 0);
    assert(decimal_value(s1) == decimal_value(s0) * 10 + digit_value(s1.last()));
    assert(decimal_value(s2) == decimal_value(s1) * 10 + digit_value(s2.last()));
    assert(decimal_value(s3) == decimal_value(s2) * 10 + digit_value(s3.last()));
    assert(decimal_value(s) == decimal_value(s3) * 10 + digit_value(s.last()));
    assert(s1.last() == s[0]);
    assert(s2.last() == s[1]);
    assert(s3.last() == s[2]);
}

/// Of two four-digit strings, the one with the smaller value sorts first.
proof fn lemma_four_digits_sort_by_value(s: Seq<char>, t: Seq<char>)
    requires
        s.len() == 4,
        t.len() == 4,
        forall|i: int| 0 <= i < 4 ==> is_digit(#[trigger] s[i]),
        forall|i: int| 0 <= i < 4 ==> is_digit(#[trigger] t[i]),
        decimal_value(s) < decimal_value(t),
    ensures
        label_lt(s, t),
{
    lemma_value_of_four(s);
    lemma_value_of_four(t);
    assert(is_digit(s[0]) && is_digit(s[1]) && is_digit(s[2]) && is_digit(s[3]));
    assert(is_digit(t[0]) && is_digit(t[1]) && is_digit(t[2]) && is_digit(t[3]));
    law_label_order_is_string_order(s, t);
    if s[0] != t[0] {
        assert(first_difference_at(s, t, 0));
    } else if s[1] != t[1] {
        assert(first_difference_at(s, t, 1));
    } else if s[2] != t[2] {
        assert(first_difference_at(s, t, 2));
    } else {
        assert(first_difference_at(s, t, 3));
    }
}

/// Seat labels sort as the seat numbers do, up to seat 9999: a reservation
/// that takes the free seat with the least label takes the one with the
/// least number.
pub proof fn law_seat_labels_sort_by_number(a: nat, b: nat)
    requires
        a < b <= 9999,
    ensures
        label_lt(seat_label_text(a), seat_label_text(b)),
{
    lemma_padded_four_digits(a);
    lemma_padded_four_digits(b);
    lemma_four_digits_sort_by_value(padded(a), padded(b));
    let la = seat_label_text(a);
    let lb = seat_label_text(b);
    assert(la[0] == 'S' && lb[0] == 'S');
    assert(la.drop_first() =~= padded(a));
    assert(lb.drop_first() =~= padded(b));
}

fn digit_str(d: u32) -> (s: &'static str)
    requires
        d < 10,
    ensures
        s@ == seq![digit_char(d as int)],
{
    proof {
        reveal_strlit("0");
        reveal_strlit("1");
        reveal_strlit("2");
        reveal_strlit("3");
        reveal_strlit("4");
        reveal_strlit("5");
        reveal_strlit("6");
        reveal_strlit("7");
        reveal_strlit("8");
        reveal_strlit("9");
    }
    if d == 0 { "0" }
    else if d == 1 { "1" }
    else if d == 2 { "2" }
    else if d == 3 { "3" }
    else if d == 4 { "4" }
    else if d == 5 { "5" }
    else if d == 6 { "6" }
    else if d == 7 { "7" }
    else if d == 8 { "8" }
    else { "9" }
}

fn push_decimal(s: &mut String, n: u32)
    ensures
        final(s)@ == old(s)@ + decimal(n as nat),
    decreases n,
{
    if n >= 10 {
        push_decimal(s, n / 10);
    }
    s.append(digit_str(n % 10));
    proof {
        if n >= 10 {
            assert(decimal(n as nat) == decimal((n / 10) as nat).push(digit_char((n % 10) as int)));
        }
    }
}

/// The label of the `n`-th seat: `S0001`, `S0002`, ..., `S9999`, `S10000`, ...
pub fn seat_label(n: u32) -> (label: String)
    ensures
        label@ == seat_label_text(n as nat),
{
    proof {
        reveal_strlit("S");
        reveal_strlit("0");
        lemma_decimal(n as nat);
    }
    let mut label = String::new();
    label.append("S");
    let pad: u32 = if n < 10 { 3 } else if n < 100 { 2 } else if n < 1000 { 1 } else { 0 };
    let mut i: u32 = 0;
    while i < pad
        invariant
            i <= pad,
            label@ == seq!['S'] + zeros(i as nat),
        decreases pad - i,
    {
        proof {
            reveal_strlit("0");
        }
        label.append("0");
        i = i + 1;
        assert(label@ =~= seq!['S'] + zeros(i as nat));
    }
    push_decimal(&mut label, n);
    assert(label@ =~= seat_label_text(n as nat));
    label
}

/// Strict lexicographic order on strings, character by character: the order
/// in which labels are sorted.
pub open spec fn label_lt(a: Seq<char>, b: Seq<char>) -> bool
    decreases a.len(),
{
    if a.len() == 0 {
        b.len() > 0
    } else if b.len() == 0 {
        false
    } else if a[0] != b[0] {
        a[0] < b[0]
    } else {
        label_lt(a.drop_first(), b.drop_first())
    }
}

/// Whether `a` and `b` first differ at index `k`: both have a character
/// there, the two differ, and every earlier character agrees.
pub open spec fn first_difference_at(a: Seq<char>, b: Seq<char>, k: int) -> bool {
    &&& 0 <= k < a.len()
    &&& k < b.len()
    &&& a[k] != b[k]
    &&& forall|j: int| 0 <= j < k ==> a[j] == b[j]
}

/// Labels sort in plain string order: `a` sorts before `b` exactly when, at
/// the first index where they differ, `a`'s character is the smaller one, or
/// `a` is a proper prefix of `b`.
pub proof fn law_label_order_is_string_order(a: Seq<char>, b: Seq<char>)
    ensures
        label_lt(a, b) <==> (
            (exists|k: int| #[trigger] first_difference_at(a, b, k) && a[k] < b[k])
            || (a.len() < b.len() && forall|j: int| 0 <= j < a.len() ==> a[j] == b[j])
        ),
    decreases a.len(),
{
    if a.len() == 0 {
    } else if b.len() == 0 {
    } else if a[0] != b[0] {
        assert(first_difference_at(a, b, 0));
        assert forall|k: int| #[trigger] first_difference_at(a, b, k) implies k == 0 by {
            if k > 0 {
                assert(a[0] == b[0]);
            }
        }
    } else {
        let a1 = a.drop_first();
        let b1 = b.drop_first();
        law_label_order_is_string_order(a1, b1);
        assert forall|k: int| #[trigger] first_difference_at(a, b, k) implies k >= 1
            && first_difference_at(a1, b1, k - 1) by {
            assert(k != 0);
            assert forall|j: int| 0 <= j < k - 1 implies a1[j] == b1[j] by {
                assert(a[j + 1] == b[j + 1]);
            }
        }
        assert forall|k: int| #[trigger] first_difference_at(a1, b1, k) implies first_difference_at(a, b, k + 1) by {
            assert forall|j: int| 0 <= j < k + 1 implies a[j] == b[j] by {
                if j > 0 {
                    assert(a1[j - 1] == b1[j - 1]);
                }
            }
        }
        if exists|k: int| #[trigger] first_difference_at(a1, b1, k) && a1[k] < b1[k] {
            let k = choose|k: int| #[trigger] first_difference_at(a1, b1, k) && a1[k] < b1[k];
            assert(first_difference_at(a, b, k + 1));
        }
        if exists|k: int| #[trigger] first_difference_at(a, b, k) && a[k] < b[k] {
            let k = choose|k: int| #[trigger] first_difference_at(a, b, k) && a[k] < b[k];
            assert(first_difference_at(a1, b1, k - 1));
        }
        if a.len() < b.len() && forall|j: int| 0 <= j < a.len() ==> a[j] == b[j] {
            assert forall|j: int| 0 <= j < a1.len() implies a1[j] == b1[j] by {
                assert(a[j + 1] == b[j + 1]);
            }
        }
        if a1.len() < b1.len() && forall|j: int| 0 <= j < a1.len() ==> a1[j] == b1[j] {
            assert forall|j: int| 0 <= j < a.len() implies a[j] == b[j] by {
                if j > 0 {
                    assert(a1[j - 1] == b1[j - 1]);
                }
            }
        }
    }
}

pub proof fn lemma_label_lt_irreflexive(a: Seq<char>)
    ensures
        !label_lt(a, a),
    decreases a.len(),
{
    if a.len() > 0 {
        lemma_label_lt_irreflexive(a.drop_first());
    }
}

pub proof fn lemma_label_lt_transitive(a: Seq<char>, b: Seq<char>, c: Seq<char>)
    requires
        label_lt(a, b),
        label_lt(b, c),
    ensures
        label_lt(a, c),
    decreases a.len(),
{
    if a.len() > 0 && b.len() > 0 && c.len() > 0 && a[0] == b[0] && b[0] == c[0] {
        lemma_label_lt_transitive(a.drop_first(), b.drop_first(), c.drop_first());
    }
}

/// Whether label `a` sorts before label `b`.
pub fn label_less(a: &String, b: &String) -> (r: bool)
    ensures
        r == label_lt(a@, b@),
{
    let sa = a.as_str();
    let sb = b.as_str();
    let n = sa.unicode_len();
    let m = sb.unicode_len();
    let mut i: usize = 0;
    assert(a@.skip(0) =~= a@);
    assert(b@.skip(0) =~= b@);
    while i < n && i < m
        invariant
            n == a@.len(),
            m == b@.len(),
            sa@ == a@,
            sb@ == b@,
            i <= n,
            i <= m,
            label_lt(a@, b@) == label_lt(a@.skip(i as int), b@.skip(i as int)),
        decreases n - i,
    {
        let x = sa.get_char(i);
        let y = sb.get_char(i);
        assert(a@.skip(i as int)[0] == x);
        assert(b@.skip(i as int)[0] == y);
        if x < y {
            return true;
        }
        if x > y {
            return false;
        }
        assert(a@.skip(i as int).drop_first() =~= a@.skip(i + 1));
        assert(b@.skip(i as int).drop_first() =~= b@.skip(i + 1));
        i = i + 1;
    }
    i >= n && i < m
}

} // verus!
