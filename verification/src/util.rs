//! Small verified helpers: lexicographic string order and number
//! formatting for display.

use vstd::prelude::*;
use vstd::string::{StrSliceExecFns, StringExecFns};

verus! {

/// Strict lexicographic order on character sequences, by code point; a
/// proper prefix comes before every extension of it.
pub open spec fn lex_less(a: Seq<char>, b: Seq<char>) -> bool
    decreases a.len(),
{
    if b.len() == 0 {
        false
    } else if a.len() == 0 {
        true
    } else if a[0] != b[0] {
        (a[0] as int) < (b[0] as int)
    } else {
        lex_less(a.drop_first(), b.drop_first())
    }
}

/// No sequence comes before itself.
pub proof fn lemma_lex_irreflexive(a: Seq<char>)
    ensures
        !lex_less(a, a),
    decreases a.len(),
{
    if a.len() > 0 {
        lemma_lex_irreflexive(a.drop_first());
    }
}

/// Of two distinct sequences, exactly one comes before the other.
pub proof fn lemma_lex_trichotomy(a: Seq<char>, b: Seq<char>)
    ensures
        lex_less(a, b) || lex_less(b, a) || a == b,
    decreases a.len(),
{
    if a.len() == 0 && b.len() == 0 {
        assert(a =~= b);
    } else if a.len() > 0 && b.len() > 0 && a[0] == b[0] {
        lemma_lex_trichotomy(a.drop_first(), b.drop_first());
        if a.drop_first() == b.drop_first() {
            assert(a.drop_first().len() == b.drop_first().len());
            assert(a.len() == b.len());
            assert forall|i: int| 0 <= i < a.len() implies a[i] == b[i] by {
                if i > 0 {
                    assert(a.drop_first()[i - 1] == b.drop_first()[i - 1]);
                    assert(a[i] == a.drop_first()[i - 1]);
                    assert(b[i] == b.drop_first()[i - 1]);
                }
            }
            assert(a =~= b);
        }
    }
}

/// The order is transitive.
pub proof fn lemma_lex_transitive(a: Seq<char>, b: Seq<char>, c: Seq<char>)
    requires
        lex_less(a, b),
        lex_less(b, c),
    ensures
        lex_less(a, c),
    decreases a.len(),
{
    if a.len() > 0 && b.len() > 0 && c.len() > 0 {
        if a[0] == b[0] && b[0] == c[0] {
            lemma_lex_transitive(a.drop_first(), b.drop_first(), c.drop_first());
        }
    }
}

/// The order is asymmetric.
pub proof fn lemma_lex_asymmetric(a: Seq<char>, b: Seq<char>)
    requires
        lex_less(a, b),
    ensures
        !lex_less(b, a),
{
    if lex_less(b, a) {
        lemma_lex_transitive(a, b, a);
        lemma_lex_irreflexive(a);
    }
}

/// How the order is decided by the first position where two sequences
/// differ, given that they agree before it.
proof fn lemma_lex_first_diff(a: Seq<char>, b: Seq<char>, i: int)
    requires
        0 <= i <= a.len(),
        i <= b.len(),
        forall|k: int| 0 <= k < i ==> a[k] == b[k],
    ensures
        i < a.len() && i < b.len() && a[i] != b[i] ==> lex_less(a, b) == ((a[i] as int) < (
        b[i] as int)),
        i == a.len() ==> lex_less(a, b) == (a.len() < b.len()),
        i == b.len() && i < a.len() ==> !lex_less(a, b),
    decreases i,
{
    if i == 0 {
        if i < a.len() && i < b.len() && a[i] != b[i] {
        } else if i == a.len() {
            if b.len() > 0 {
                assert(lex_less(a, b));
            }
        }
    } else {
        assert(a[0] == b[0]);
        lemma_lex_first_diff(a.drop_first(), b.drop_first(), i - 1);
        assert(forall|k: int|
            0 <= k < i - 1 ==> a.drop_first()[k] == b.drop_first()[k]);
    }
}

/// Whether `a` comes strictly before `b` in lexicographic order.
pub fn str_lt(a: &str, b: &str) -> (r: bool)
    ensures
        r == lex_less(a@, b@),
{
    let a_len = a.unicode_len();
    let b_len = b.unicode_len();
    let mut i: usize = 0;
    loop
        invariant
            i <= a_len,
            i <= b_len,
            a_len == a@.len(),
            b_len == b@.len(),
            forall|k: int| 0 <= k < i ==> a@[k] == b@[k],
        decreases a_len - i,
    {
        if i >= a_len || i >= b_len {
            proof {
                lemma_lex_first_diff(a@, b@, i as int);
            }
            return a_len < b_len;
        }
        let ca = a.get_char(i);
        let cb = b.get_char(i);
        if ca as u32 != cb as u32 {
            proof {
                lemma_lex_first_diff(a@, b@, i as int);
            }
            return (ca as u32) < (cb as u32);
        }
        i = i + 1;
    }
}

/// Outcome of a three-way string comparison.
#[derive(Debug, Clone, Copy, PartialEq, Eq, Structural)]
pub enum StrOrder {
    /// The first string comes first.
    Less,
    /// The two strings hold the same characters.
    Equal,
    /// The second string comes first.
    Greater,
}

/// Three-way lexicographic comparison of two strings.
pub fn str_order(a: &str, b: &str) -> (r: StrOrder)
    ensures
        r is Less <==> lex_less(a@, b@),
        r is Greater <==> lex_less(b@, a@),
        r is Equal <==> a@ == b@,
{
    proof {
        lemma_lex_trichotomy(a@, b@);
        lemma_lex_irreflexive(a@);
        if lex_less(a@, b@) {
            lemma_lex_asymmetric(a@, b@);
        }
        if lex_less(b@, a@) {
            lemma_lex_asymmetric(b@, a@);
        }
    }
    if str_lt(a, b) {
        StrOrder::Less
    } else if str_lt(b, a) {
        StrOrder::Greater
    } else {
        StrOrder::Equal
    }
}

/// A sequence of names in strictly increasing lexicographic order, so
/// every name occurs at most once.
pub open spec fn sorted_name_seq(s: Seq<Seq<char>>) -> bool {
    forall|i: int, j: int| 0 <= i < j < s.len() ==> lex_less(#[trigger] s[i], #[trigger] s[j])
}

/// A strictly sorted name sequence is determined by its element set:
/// two of them holding the same names hold them in the same order.
pub proof fn lemma_sorted_eq_by_set(a: Seq<Seq<char>>, b: Seq<Seq<char>>)
    requires
        sorted_name_seq(a),
        sorted_name_seq(b),
        a.to_set() == b.to_set(),
    ensures
        a == b,
    decreases a.len(),
{
    if a.len() == 0 {
        if b.len() > 0 {
            assert(b.to_set().contains(b[0]));
            assert(a.to_set().contains(b[0]));
        }
        assert(a =~= b);
    } else if b.len() == 0 {
        assert(a.to_set().contains(a[0]));
        assert(b.to_set().contains(a[0]));
        assert(a =~= b);
    } else {
        assert(a.to_set().contains(a[0]));
        assert(b.to_set().contains(a[0]));
        let j = choose|j: int| 0 <= j < b.len() && b[j] == a[0];
        assert(b.to_set().contains(b[0]));
        assert(a.to_set().contains(b[0]));
        let k = choose|k: int| 0 <= k < a.len() && a[k] == b[0];
        if j > 0 {
            assert(lex_less(b[0], b[j]));
            if k > 0 {
                assert(lex_less(a[0], a[k]));
                lemma_lex_transitive(a[0], b[0], a[0]);
                lemma_lex_irreflexive(a[0]);
            } else {
                lemma_lex_irreflexive(a[0]);
            }
        }
        assert(a[0] == b[0]);
        let at = a.drop_first();
        let bt = b.drop_first();
        assert forall|i: int, j2: int|
            0 <= i < j2 < at.len() implies lex_less(#[trigger] at[i], #[trigger] at[j2]) by {
            assert(at[i] == a[i + 1] && at[j2] == a[j2 + 1]);
            assert(lex_less(a[i + 1], a[j2 + 1]));
        }
        assert forall|i: int, j2: int|
            0 <= i < j2 < bt.len() implies lex_less(#[trigger] bt[i], #[trigger] bt[j2]) by {
            assert(bt[i] == b[i + 1] && bt[j2] == b[j2 + 1]);
            assert(lex_less(b[i + 1], b[j2 + 1]));
        }
        assert forall|x: Seq<char>|
            at.to_set().contains(x) == bt.to_set().contains(x) by {
            if at.contains(x) {
                let i = choose|i: int| 0 <= i < at.len() && at[i] == x;
                assert(a[i + 1] == x);
                assert(lex_less(a[0], a[i + 1]));
                lemma_lex_irreflexive(a[0]);
                assert(x != b[0]);
                assert(a.to_set().contains(x));
                assert(b.to_set().contains(x));
                let j2 = choose|j2: int| 0 <= j2 < b.len() && b[j2] == x;
                assert(j2 != 0);
                assert(bt[j2 - 1] == x);
                assert(bt.contains(x));
            }
            if bt.contains(x) {
                let i = choose|i: int| 0 <= i < bt.len() && bt[i] == x;
                assert(b[i + 1] == x);
                assert(lex_less(b[0], b[i + 1]));
                lemma_lex_irreflexive(b[0]);
                assert(x != a[0]);
                assert(b.to_set().contains(x));
                assert(a.to_set().contains(x));
                let j2 = choose|j2: int| 0 <= j2 < a.len() && a[j2] == x;
                assert(j2 != 0);
                assert(at[j2 - 1] == x);
                assert(at.contains(x));
            }
        }
        assert(at.to_set() =~= bt.to_set());
        lemma_sorted_eq_by_set(at, bt);
        assert forall|i: int| 0 <= i < a.len() implies a[i] == b[i] by {
            if i > 0 {
                assert(at[i - 1] == bt[i - 1]);
                assert(a[i] == at[i - 1] && b[i] == bt[i - 1]);
            }
        }
        assert(a =~= b);
    }
}

/// The character sequences of a sequence of strings, in order.
pub open spec fn name_views(v: Seq<String>) -> Seq<Seq<char>> {
    v.map_values(|s: String| s@)
}

/// The decimal digit character of `d`.
pub open spec fn digit_char(d: int) -> char {
    (48 + d) as char
}

/// The decimal digits of `n`, most significant first, with no sign and no
/// leading zero (a single zero for 0).
pub open spec fn spec_digits(n: int) -> Seq<char>
    decreases n,
{
    if n < 10 {
        seq![digit_char(n)]
    } else {
        spec_digits(n / 10).push(digit_char(n % 10))
    }
}

/// Exactly three digit characters, for values below 1000.
pub open spec fn spec_pad3(n: int) -> Seq<char> {
    seq![digit_char(n / 100), digit_char((n / 10) % 10), digit_char(n % 10)]
}

/// The decimal digits of `n` with a comma between every group of three,
/// counted from the right.
pub open spec fn spec_comma_separated(n: int) -> Seq<char>
    decreases n,
{
    if n < 1000 {
        spec_digits(n)
    } else {
        spec_comma_separated(n / 1000) + seq![','] + spec_pad3(n % 1000)
    }
}

/// The one-character string of a decimal digit.
pub fn digit_str(d: u32) -> (r: &'static str)
    requires
        d < 10,
    ensures
        r@ == seq![digit_char(d as int)],
{
    proof {
        reveal_strlit("0");
        reveal_strlit("1");
        reveal_strlit("2");
        reveal_strlit("3");
        reveal_strlit("4");
        reveal_strlit("5");
        reveal_strlit("6");
        reveal_strlit("7");
        reveal_strlit("8");
        reveal_strlit("9");
    }
    let r = match d {
        0 => "0",
        1 => "1",
        2 => "2",
        3 => "3",
        4 => "4",
        5 => "5",
        6 => "6",
        7 => "7",
        8 => "8",
        _ => "9",
    };
    proof {
        assert(r@ =~= seq![digit_char(d as int)]);
    }
    r
}

/// The decimal digits of `n`, most significant first.
fn digits_string(n: u32) -> (r: String)
    ensures
        r@ == spec_digits(n as int),
    decreases n,
{
    if n < 10 {
        String::from_str(digit_str(n))
    } else {
        let mut s = digits_string(n / 10);
        s.append(digit_str(n % 10));
        proof {
            assert(s@ =~= spec_digits(n as int));
        }
        s
    }
}

/// `n` in decimal with a comma between every group of three digits,
/// counted from the right.
pub fn comma_separated(n: u32) -> (r: String)
    ensures
        r@ == spec_comma_separated(n as int),
    decreases n,
{
    if n < 1000 {
        digits_string(n)
    } else {
        let mut s = comma_separated(n / 1000);
        s.append(",");
        let rem = n % 1000;
        s.append(digit_str(rem / 100));
        s.append(digit_str((rem / 10) % 10));
        s.append(digit_str(rem % 10));
        proof {
            reveal_strlit(",");
            assert(s@ =~= spec_comma_separated(n as int));
        }
        s
    }
}

/// `n` in decimal with digit groups, followed by the yen sign.
pub fn yen(n: u32) -> (r: String)
    ensures
        r@ == spec_comma_separated(n as int) + " \u{a5}"@,
{
    let mut s = comma_separated(n);
    s.append(" \u{a5}");
    s
}

} // verus!
