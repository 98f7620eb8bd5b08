//! Text helpers: the order that `String` keys are kept in, prefix tests,
//! and building strings char by char.

use vstd::prelude::*;
use vstd::string::*;

verus! {

/// The outcome of comparing two texts.
#[derive(Debug, Clone, Copy, PartialEq, Eq)]
pub enum Order {
    Less,
    Equal,
    Greater,
}

/// Lexicographic "strictly less" on char sequences, comparing code points.
/// This is the order of `String`'s `Ord`: UTF-8 byte order equals code point order.
pub open spec fn text_lt(a: Seq<char>, b: Seq<char>) -> bool
    decreases a.len(),
{
    if a.len() == 0 {
        b.len() > 0
    } else if b.len() == 0 {
        false
    } else if a[0] != b[0] {
        (a[0] as int) < (b[0] as int)
    } else {
        text_lt(a.drop_first(), b.drop_first())
    }
}

/// `p` is a prefix of `s`.
pub open spec fn is_prefix(p: Seq<char>, s: Seq<char>) -> bool {
    p.len() <= s.len() && s.subrange(0, p.len() as int) =~= p
}

pub proof fn lemma_text_lt_irreflexive(a: Seq<char>)
    ensures
        !text_lt(a, a),
    decreases a.len(),
{
    if a.len() > 0 {
        lemma_text_lt_irreflexive(a.drop_first());
    }
}

pub proof fn lemma_text_lt_asymmetric(a: Seq<char>, b: Seq<char>)
    ensures
        text_lt(a, b) ==> !text_lt(b, a),
    decreases a.len(),
{
    if a.len() > 0 && b.len() > 0 && a[0] == b[0] {
        lemma_text_lt_asymmetric(a.drop_first(), b.drop_first());
    }
}

pub proof fn lemma_text_lt_transitive(a: Seq<char>, b: Seq<char>, c: Seq<char>)
    requires
        text_lt(a, b),
        text_lt(b, c),
    ensures
        text_lt(a, c),
    decreases a.len(),
{
    if a.len() > 0 && b.len() > 0 && c.len() > 0 {
        if a[0] == b[0] && b[0] == c[0] {
            lemma_text_lt_transitive(a.drop_first(), b.drop_first(), c.drop_first());
        } else {
            assert((a[0] as int) <= (b[0] as int));
            assert((b[0] as int) <= (c[0] as int));
            if a[0] == c[0] {
                assert((a[0] as int) == (b[0] as int));
                assert(a[0] == b[0]);
            }
        }
    }
}

pub proof fn lemma_text_lt_total(a: Seq<char>, b: Seq<char>)
    ensures
        a == b || text_lt(a, b) || text_lt(b, a),
    decreases a.len(),
{
    if a.len() > 0 && b.len() > 0 {
        if a[0] == b[0] {
            lemma_text_lt_total(a.drop_first(), b.drop_first());
            if a.drop_first() == b.drop_first() {
                assert(a =~= seq![a[0]] + a.drop_first());
                assert(b =~= seq![b[0]] + b.drop_first());
            }
        } else {
            if (a[0] as int) == (b[0] as int) {
                assert(a[0] == b[0]);
            }
        }
    } else if a.len() == 0 && b.len() == 0 {
        assert(a =~= b);
    }
}

proof fn lemma_text_lt_skip(a: Seq<char>, b: Seq<char>, i: int)
    requires
        0 <= i < a.len(),
        i < b.len(),
        a[i] == b[i],
    ensures
        text_lt(a.skip(i), b.skip(i)) == text_lt(a.skip(i + 1), b.skip(i + 1)),
{
    assert(a.skip(i).drop_first() =~= a.skip(i + 1));
    assert(b.skip(i).drop_first() =~= b.skip(i + 1));
}

/// Compares two texts in the order of `text_lt`.
pub fn compare_text(a: &str, b: &str) -> (r: Order)
    ensures
        r == Order::Less <==> text_lt(a@, b@),
        r == Order::Equal <==> a@ == b@,
        r == Order::Greater <==> text_lt(b@, a@),
{
    let la = a.unicode_len();
    let lb = b.unicode_len();
    let mut i: usize = 0;
    assert(a@.skip(0) =~= a@);
    assert(b@.skip(0) =~= b@);
    while i < la && i < lb
        invariant
            la == a@.len(),
            lb == b@.len(),
            i <= la,
            i <= lb,
            a@.subrange(0, i as int) =~= b@.subrange(0, i as int),
            text_lt(a@, b@) == text_lt(a@.skip(i as int), b@.skip(i as int)),
            text_lt(b@, a@) == text_lt(b@.skip(i as int), a@.skip(i as int)),
        decreases la - i,
    {
        let ca = a.get_char(i);
        let cb = b.get_char(i);
        if ca != cb {
            proof {
                assert(a@.skip(i as int)[0] == ca);
                assert(b@.skip(i as int)[0] == cb);
                if a@ == b@ {
                    assert(a@[i as int] == b@[i as int]);
                }
                if (ca as u32) == (cb as u32) {
                    assert(ca == cb);
                }
            }
            if (ca as u32) < (cb as u32) {
                proof { lemma_text_lt_asymmetric(a@, b@); }
                return Order::Less;
            } else {
                proof { lemma_text_lt_asymmetric(b@, a@); }
                return Order::Greater;
            }
        }
        proof {
            lemma_text_lt_skip(a@, b@, i as int);
            lemma_text_lt_skip(b@, a@, i as int);
            assert(a@.subrange(0, i + 1) =~= a@.subrange(0, i as int).push(ca));
            assert(b@.subrange(0, i + 1) =~= b@.subrange(0, i as int).push(cb));
        }
        i = i + 1;
    }
    proof {
        assert(a@.skip(i as int).len() == la - i);
        assert(b@.skip(i as int).len() == lb - i);
        if la == lb {
            assert(a@ =~= a@.subrange(0, i as int));
            assert(b@ =~= b@.subrange(0, i as int));
        } else {
            if a@ == b@ {
                assert(false);
            }
        }
    }
    if la < lb {
        Order::Less
    } else if la == lb {
        proof { lemma_text_lt_irreflexive(a@); }
        Order::Equal
    } else {
        Order::Greater
    }
}

/// Whether two texts are equal.
pub fn same_text(a: &str, b: &str) -> (r: bool)
    ensures
        r == (a@ == b@),
{
    match compare_text(a, b) {
        Order::Equal => true,
        _ => false,
    }
}

/// Whether `prefix` is a prefix of `s`, as `str::starts_with` decides it.
pub fn starts_with(s: &str, prefix: &str) -> (r: bool)
    ensures
        r == is_prefix(prefix@, s@),
{
    let ls = s.unicode_len();
    let lp = prefix.unicode_len();
    if lp > ls {
        return false;
    }
    let mut i: usize = 0;
    while i < lp
        invariant
            ls == s@.len(),
            lp == prefix@.len(),
            lp <= ls,
            i <= lp,
            s@.subrange(0, i as int) =~= prefix@.subrange(0, i as int),
        decreases lp - i,
    {
        let c = s.get_char(i);
        let d = prefix.get_char(i);
        if c != d {
            proof {
                assert(s@.subrange(0, lp as int)[i as int] == c);
            }
            return false;
        }
        proof {
            assert(s@.subrange(0, i + 1) =~= s@.subrange(0, i as int).push(c));
            assert(prefix@.subrange(0, i + 1) =~= prefix@.subrange(0, i as int).push(d));
        }
        i = i + 1;
    }
    proof {
        assert(prefix@.subrange(0, lp as int) =~= prefix@);
    }
    true
}


/// The texts of a sequence of strings.
pub open spec fn views_of(v: Seq<String>) -> Seq<Seq<char>> {
    v.map_values(|s: String| s@)
}

/// Strictly increasing in `text_lt`: sorted and free of repeats.
pub open spec fn sorted_texts(s: Seq<Seq<char>>) -> bool {
    forall|i: int, j: int| 0 <= i < j < s.len() ==> text_lt(#[trigger] s[i], #[trigger] s[j])
}

pub proof fn lemma_sorted_no_duplicates(s: Seq<Seq<char>>)
    requires
        sorted_texts(s),
    ensures
        s.no_duplicates(),
{
    assert forall|i: int, j: int| 0 <= i < s.len() && 0 <= j < s.len() && i != j implies s[i]
        != s[j] by {
        if i < j {
            lemma_text_lt_irreflexive(s[i]);
        } else {
            lemma_text_lt_irreflexive(s[j]);
        }
    }
}

/// Two strictly sorted sequences with the same elements are the same sequence.
pub proof fn lemma_sorted_unique(a: Seq<Seq<char>>, b: Seq<Seq<char>>)
    requires
        sorted_texts(a),
        sorted_texts(b),
        a.to_set() == b.to_set(),
    ensures
        a == b,
    decreases a.len(),
{
    if a.len() == 0 {
        if b.len() > 0 {
            assert(b.to_set().contains(b[0]));
        }
        assert(a =~= b);
    } else {
        if b.len() == 0 {
            assert(a.to_set().contains(a[0]));
            assert(false);
        }
        assert(a.to_set().contains(a[0]));
        assert(b.to_set().contains(b[0]));
        let ia = choose|k: int| 0 <= k < a.len() && a[k] == b[0];
        let ib = choose|k: int| 0 <= k < b.len() && b[k] == a[0];
        if ia > 0 {
            assert(text_lt(a[0], a[ia]));
            if ib > 0 {
                assert(text_lt(b[0], b[ib]));
                lemma_text_lt_asymmetric(a[0], b[0]);
            } else {
                lemma_text_lt_irreflexive(a[0]);
            }
        }
        assert(a[0] == b[0]);
        let ta = a.drop_first();
        let tb = b.drop_first();
        lemma_sorted_no_duplicates(a);
        lemma_sorted_no_duplicates(b);
        assert forall|x: Seq<char>| ta.to_set().contains(x) implies tb.to_set().contains(x) by {
            let k = choose|k: int| 0 <= k < ta.len() && ta[k] == x;
            assert(a[k + 1] == x);
            assert(a.to_set().contains(x));
            let m = choose|m: int| 0 <= m < b.len() && b[m] == x;
            if m == 0 {
                assert(a[0] == a[k + 1]);
            }
            assert(tb[m - 1] == x);
        }
        assert forall|x: Seq<char>| tb.to_set().contains(x) implies ta.to_set().contains(x) by {
            let k = choose|k: int| 0 <= k < tb.len() && tb[k] == x;
            assert(b[k + 1] == x);
            assert(b.to_set().contains(x));
            let m = choose|m: int| 0 <= m < a.len() && a[m] == x;
            if m == 0 {
                assert(b[0] == b[k + 1]);
            }
            assert(ta[m - 1] == x);
        }
        assert(ta.to_set() =~= tb.to_set());
        lemma_sorted_unique(ta, tb);
        assert(a =~= seq![a[0]] + ta);
        assert(b =~= seq![b[0]] + tb);
    }
}

/// `p` is a suffix of `s`.
pub open spec fn is_suffix(p: Seq<char>, s: Seq<char>) -> bool {
    p.len() <= s.len() && s.subrange(s.len() - p.len(), s.len() as int) =~= p
}

/// Whether `suffix` is a suffix of `s`, as `str::ends_with` decides it.
pub fn ends_with(s: &str, suffix: &str) -> (r: bool)
    ensures
        r == is_suffix(suffix@, s@),
{
    let ls = s.unicode_len();
    let lp = suffix.unicode_len();
    if lp > ls {
        return false;
    }
    let off = ls - lp;
    let mut i: usize = 0;
    while i < lp
        invariant
            ls == s@.len(),
            lp == suffix@.len(),
            off == ls - lp,
            i <= lp,
            s@.subrange(off as int, off + i) =~= suffix@.subrange(0, i as int),
        decreases lp - i,
    {
        let c = s.get_char(off + i);
        let d = suffix.get_char(i);
        if c != d {
            proof {
                assert(s@.subrange(off as int, ls as int)[i as int] == c);
            }
            return false;
        }
        proof {
            assert(s@.subrange(off as int, off + i + 1) =~= s@.subrange(off as int, off + i).push(c));
            assert(suffix@.subrange(0, i + 1) =~= suffix@.subrange(0, i as int).push(d));
        }
        i = i + 1;
    }
    proof {
        assert(suffix@.subrange(0, lp as int) =~= suffix@);
    }
    true
}

/// `p` occurs in `s`.
pub open spec fn has_infix(p: Seq<char>, s: Seq<char>) -> bool {
    exists|i: int| 0 <= i && i + p.len() <= s.len() && #[trigger] s.subrange(i, i + p.len()) == p
}

/// Whether `p` occurs in `s`, as `str::contains` decides it for a string pattern.
pub fn contains_text(s: &str, p: &str) -> (r: bool)
    ensures
        r == has_infix(p@, s@),
{
    let ls = s.unicode_len();
    let lp = p.unicode_len();
    if lp > ls {
        proof {
            if has_infix(p@, s@) {
                let i = choose|i: int| 0 <= i && i + p@.len() <= s@.len() && #[trigger] s@.subrange(i, i + p@.len()) == p@;
            }
        }
        return false;
    }
    if lp == 0 {
        proof {
            assert(s@.subrange(0int, 0int + p@.len()) =~= p@);
        }
        return true;
    }
    let mut start: usize = 0;
    while start <= ls - lp
        invariant
            ls == s@.len(),
            lp == p@.len(),
            1 <= lp <= ls,
            start <= ls - lp + 1,
            forall|i: int| 0 <= i < start ==> #[trigger] s@.subrange(i, i + lp) != p@,
        decreases ls - lp + 1 - start,
    {
        let mut k: usize = 0;
        let mut same = true;
        while k < lp && same
            invariant
                ls == s@.len(),
                lp == p@.len(),
                start + lp <= ls,
                k <= lp,
                same ==> s@.subrange(start as int, start + k) =~= p@.subrange(0, k as int),
                !same ==> s@.subrange(start as int, start + lp) != p@,
            decreases (lp - k) as int + (if same { 1int } else { 0int }),
        {
            let c = s.get_char(start + k);
            let d = p.get_char(k);
            if c != d {
                proof {
                    assert(s@.subrange(start as int, start + lp)[k as int] == c);
                }
                same = false;
            } else {
                proof {
                    assert(s@.subrange(start as int, start + k + 1) =~= s@.subrange(start as int, start + k).push(c));
                    assert(p@.subrange(0, k + 1) =~= p@.subrange(0, k as int).push(d));
                }
                k = k + 1;
            }
        }
        if same {
            proof {
                assert(p@.subrange(0, lp as int) =~= p@);
            }
            return true;
        }
        start = start + 1;
    }
    proof {
        if has_infix(p@, s@) {
            let i = choose|i: int| 0 <= i && i + p@.len() <= s@.len() && #[trigger] s@.subrange(i, i + p@.len()) == p@;
            assert(s@.subrange(i, i + lp) != p@);
        }
    }
    false
}

/// Growing a prefix by one element adds that element to its set.
pub proof fn lemma_prefix_to_set<A>(s: Seq<A>, i: int)
    requires
        0 <= i < s.len(),
    ensures
        s.subrange(0, i + 1).to_set() == s.subrange(0, i).to_set().insert(s[i]),
{
    assert(s.subrange(0, i + 1) =~= s.subrange(0, i).push(s[i]));
    s.subrange(0, i).lemma_push_to_set_commute(s[i]);
}

/// Appends `c` to `s`, as `String::push` does.
#[verifier::external_body]
pub(crate) fn push_char(s: &mut String, c: char)
    ensures
        final(s)@ == old(s)@.push(c),
{
    s.push(c);
}


/// Appends the text `t` to `s`.
pub fn append_text(s: &mut String, t: &str)
    ensures
        final(s)@ == old(s)@ + t@,
{
    let n = t.unicode_len();
    let mut i: usize = 0;
    while i < n
        invariant
            n == t@.len(),
            i <= n,
            s@ == old(s)@ + t@.subrange(0, i as int),
        decreases n - i,
    {
        let c = t.get_char(i);
        push_char(s, c);
        proof {
            assert(t@.subrange(0, i + 1) =~= t@.subrange(0, i as int).push(c));
            assert(old(s)@ + t@.subrange(0, i + 1) =~= (old(s)@ + t@.subrange(0, i as int)).push(c));
        }
        i = i + 1;
    }
    proof {
        assert(t@.subrange(0, n as int) =~= t@);
    }
}

/// The character of the decimal digit `d`.
pub open spec fn digit_char(d: nat) -> char {
    if d == 0 { '0' } else if d == 1 { '1' } else if d == 2 { '2' } else if d == 3 { '3' }
    else if d == 4 { '4' } else if d == 5 { '5' } else if d == 6 { '6' } else if d == 7 { '7' }
    else if d == 8 { '8' } else { '9' }
}

/// The decimal digits of `n`, without leading zeros (`0` for zero).
pub open spec fn decimal_text(n: nat) -> Seq<char>
    decreases n,
{
    if n < 10 {
        seq![digit_char(n)]
    } else {
        decimal_text(n / 10).push(digit_char(n % 10))
    }
}

fn digit(d: usize) -> (c: char)
    requires
        d < 10,
    ensures
        c == digit_char(d as nat),
{
    if d == 0 { '0' } else if d == 1 { '1' } else if d == 2 { '2' } else if d == 3 { '3' }
    else if d == 4 { '4' } else if d == 5 { '5' } else if d == 6 { '6' } else if d == 7 { '7' }
    else if d == 8 { '8' } else { '9' }
}

/// Appends the decimal digits of `n` to `s`, as `{}` formats an integer.
pub fn append_decimal(s: &mut String, n: usize)
    ensures
        final(s)@ == old(s)@ + decimal_text(n as nat),
    decreases n,
{
    if n >= 10 {
        append_decimal(s, n / 10);
    }
    push_char(s, digit(n % 10));
    proof {
        if n >= 10 {
            assert(old(s)@ + decimal_text(n as nat) =~= (old(s)@ + decimal_text((n / 10) as nat)).push(digit_char((n % 10) as nat)));
        } else {
            assert(old(s)@ + decimal_text(n as nat) =~= old(s)@.push(digit_char(n as nat)));
        }
    }
}

/// The text `a` followed by `b`, as a new string.
pub fn concat_text(a: &str, b: &str) -> (r: String)
    ensures
        r@ == a@ + b@,
{
    let mut r = a.to_string();
    append_text(&mut r, b);
    r
}


/// How a character reads inside a quoted string: a backslash, a double
/// quote, a newline, a carriage return and a tab are escaped with a backslash.
pub open spec fn escaped_char(c: char) -> Seq<char> {
    if c == '\\' {
        seq!['\\', '\\']
    } else if c == '"' {
        seq!['\\', '"']
    } else if c == '\n' {
        seq!['\\', 'n']
    } else if c == '\r' {
        seq!['\\', 'r']
    } else if c == '\t' {
        seq!['\\', 't']
    } else {
        seq![c]
    }
}

/// The text with each character escaped.
pub open spec fn escaped_text(s: Seq<char>) -> Seq<char>
    decreases s.len(),
{
    if s.len() == 0 {
        Seq::empty()
    } else {
        escaped_text(s.drop_last()) + escaped_char(s.last())
    }
}

/// The text in double quotes, escaped.
pub open spec fn quoted_text(s: Seq<char>) -> Seq<char> {
    seq!['"'] + escaped_text(s) + seq!['"']
}

/// Appends `t` in double quotes, escaped, to `s`.
pub fn append_quoted(s: &mut String, t: &str)
    ensures
        final(s)@ == old(s)@ + quoted_text(t@),
{
    push_char(s, '"');
    let n = t.unicode_len();
    let mut i: usize = 0;
    while i < n
        invariant
            n == t@.len(),
            i <= n,
            s@ == old(s)@ + seq!['"'] + escaped_text(t@.subrange(0, i as int)),
        decreases n - i,
    {
        let c = t.get_char(i);
        let ghost before = s@;
        if c == '\\' {
            push_char(s, '\\');
            push_char(s, '\\');
        } else if c == '"' {
            push_char(s, '\\');
            push_char(s, '"');
        } else if c == '\n' {
            push_char(s, '\\');
            push_char(s, 'n');
        } else if c == '\r' {
            push_char(s, '\\');
            push_char(s, 'r');
        } else if c == '\t' {
            push_char(s, '\\');
            push_char(s, 't');
        } else {
            push_char(s, c);
        }
        proof {
            assert(s@ =~= before + escaped_char(c));
            assert(t@.subrange(0, i + 1).drop_last() =~= t@.subrange(0, i as int));
            assert(t@.subrange(0, i + 1).last() == c);
        }
        i = i + 1;
    }
    push_char(s, '"');
    proof {
        assert(t@.subrange(0, n as int) =~= t@);
        assert(s@ =~= old(s)@ + quoted_text(t@));
    }
}

} // verus!
