//! Text as the model sees it: a sequence of characters with the order in which
//! keys, writers and listings are sorted.

use vstd::prelude::*;
use vstd::std_specs::iter::IteratorSpec;

verus! {

/// The contents of a string.
pub type Text = Seq<char>;

/// Strict lexicographic order by code point.
pub open spec fn text_lt(a: Text, b: Text) -> bool
    decreases a.len(),
{
    if b.len() == 0 {
        false
    } else if a.len() == 0 {
        true
    } else if a[0] != b[0] {
        (a[0] as int) < (b[0] as int)
    } else {
        text_lt(a.drop_first(), b.drop_first())
    }
}

/// No text sorts before itself.
pub proof fn lemma_text_lt_irreflexive(a: Text)
    ensures
        !text_lt(a, a),
    decreases a.len(),
{
    if a.len() > 0 {
        lemma_text_lt_irreflexive(a.drop_first());
    }
}

/// The order is transitive.
pub proof fn lemma_text_lt_transitive(a: Text, b: Text, c: Text)
    requires
        text_lt(a, b),
        text_lt(b, c),
    ensures
        text_lt(a, c),
    decreases a.len(),
{
    if a.len() > 0 && a[0] == b[0] && b[0] == c[0] {
        lemma_text_lt_transitive(a.drop_first(), b.drop_first(), c.drop_first());
    }
}

/// Any two different texts are ordered one way or the other.
pub proof fn lemma_text_lt_total(a: Text, b: Text)
    ensures
        a == b || text_lt(a, b) || text_lt(b, a),
    decreases a.len(),
{
    if a.len() > 0 && b.len() > 0 && a[0] == b[0] {
        lemma_text_lt_total(a.drop_first(), b.drop_first());
        if a.drop_first() == b.drop_first() {
            assert(a =~= seq![a[0]] + a.drop_first());
            assert(b =~= seq![b[0]] + b.drop_first());
        }
    } else if a.len() == 0 && b.len() == 0 {
        assert(a =~= b);
    }
}

/// Does `a` sort before `b`?
pub fn sorts_before(a: &str, b: &str) -> (r: bool)
    ensures
        r == text_lt(a@, b@),
{
    let mut left = a.chars();
    let mut right = b.chars();
    loop
        invariant
            left.obeys_prophetic_iter_laws(),
            left.decrease() is Some,
            right.obeys_prophetic_iter_laws(),
            text_lt(a@, b@) == text_lt(left.remaining(), right.remaining()),
        decreases left.decrease()->0,
    {
        let l = left.next();
        let r = right.next();
        match r {
            None => {
                return false;
            },
            Some(y) => match l {
                None => {
                    return true;
                },
                Some(x) => {
                    if x != y {
                        return x < y;
                    }
                },
            },
        }
    }
}

/// The position of the first `c` in `s`, or the length of `s` where there is none.
pub open spec fn first_at(s: Text, c: char) -> int
    decreases s.len(),
{
    if s.len() == 0 || s[0] == c {
        0
    } else {
        1 + first_at(s.drop_first(), c)
    }
}

/// The parts before and after the first `c`.
pub open spec fn split_once(s: Text, c: char) -> Option<(Text, Text)> {
    let i = first_at(s, c);
    if i < s.len() {
        Some((s.take(i), s.skip(i + 1)))
    } else {
        None
    }
}

/// What `first_at` finds: `c` stands there and nowhere before.
pub proof fn lemma_first_at(s: Text, c: char)
    ensures
        0 <= first_at(s, c) <= s.len(),
        forall|i: int| 0 <= i < first_at(s, c) ==> #[trigger] s[i] != c,
        first_at(s, c) < s.len() ==> s[first_at(s, c)] == c,
    decreases s.len(),
{
    if s.len() > 0 && s[0] != c {
        let rest = s.drop_first();
        lemma_first_at(rest, c);
        assert forall|i: int| 0 <= i < first_at(s, c) implies #[trigger] s[i] != c by {
            if i > 0 {
                assert(rest[i - 1] == s[i]);
            }
        }
    }
}

/// The first `c` is at `i` where `c` stands there and nowhere before.
pub proof fn lemma_first_at_is(s: Text, c: char, i: int)
    requires
        0 <= i < s.len(),
        s[i] == c,
        forall|j: int| 0 <= j < i ==> #[trigger] s[j] != c,
    ensures
        first_at(s, c) == i,
{
    lemma_first_at(s, c);
    if first_at(s, c) < i {
        assert(s[first_at(s, c)] != c);
    } else if i < first_at(s, c) {
        assert(s[i] != c);
    }
}

fn find_char(s: &str, c: char) -> (r: (usize, usize))
    ensures
        r.0 == first_at(s@, c),
        r.1 == s@.len(),
{
    let n: usize = s.unicode_len();
    let mut i: usize = 0;
    let mut rest = s.chars();
    assert(s@.skip(0) =~= s@);
    loop
        invariant
            rest.obeys_prophetic_iter_laws(),
            rest.decrease() is Some,
            n == s@.len(),
            i <= n,
            rest.remaining() == s@.skip(i as int),
            first_at(s@, c) == i + first_at(s@.skip(i as int), c),
        decreases rest.decrease()->0,
    {
        match rest.next() {
            None => {
                return (i, n);
            },
            Some(x) => {
                assert(s@.skip(i as int).drop_first() =~= s@.skip(i + 1));
                if x == c {
                    return (i, n);
                }
                i += 1;
            },
        }
    }
}

/// Cut `s` in two at its first `c`.
pub fn cut_once<'a>(s: &'a str, c: char) -> (r: Option<(&'a str, &'a str)>)
    ensures
        r is Some <==> split_once(s@, c) is Some,
        r matches Some(p) ==> (p.0@, p.1@) == split_once(s@, c)->0,
{
    let (i, n) = find_char(s, c);
    proof {
        lemma_first_at(s@, c);
    }
    if i < n {
        Some((s.substring_char(0, i), s.substring_char(i + 1, n)))
    } else {
        None
    }
}

/// `a` followed by `b`.
pub fn concat(a: &str, b: &str) -> (r: String)
    ensures
        r@ == a@ + b@,
{
    a.to_string().concat(b)
}

/// Are two texts the same?
pub fn same_text(a: &str, b: &str) -> (r: bool)
    ensures
        r == (a@ == b@),
{
    proof {
        lemma_text_lt_total(a@, b@);
        lemma_text_lt_irreflexive(a@);
    }
    !sorts_before(a, b) && !sorts_before(b, a)
}

/// The parts one after the other, with `sep` between neighbours.
pub open spec fn join(parts: Seq<Text>, sep: Text) -> Text
    decreases parts.len(),
{
    if parts.len() == 0 {
        Seq::empty()
    } else if parts.len() == 1 {
        parts[0]
    } else {
        join(parts.drop_last(), sep) + sep + parts.last()
    }
}

/// Join the parts with `sep` between neighbours.
pub fn join_text(parts: &Vec<String>, sep: &str) -> (r: String)
    ensures
        r@ == join(Seq::new(parts@.len(), |i: int| parts@[i]@), sep@),
{
    let ghost all = Seq::new(parts@.len(), |i: int| parts@[i]@);
    let mut r = String::new();
    let mut i: usize = 0;
    assert(all.take(0) =~= Seq::<Text>::empty());
    while i < parts.len()
        invariant
            i <= parts.len(),
            all == Seq::new(parts@.len(), |i: int| parts@[i]@),
            r@ == join(all.take(i as int), sep@),
        decreases parts.len() - i,
    {
        assert(all.take(i + 1).drop_last() =~= all.take(i as int));
        if i > 0 {
            r.append(sep);
        } else {
            assert(r@ =~= Seq::<char>::empty());
        }
        r.append(parts[i].as_str());
        assert(r@ =~= join(all.take(i + 1), sep@));
        i += 1;
    }
    assert(all.take(parts.len() as int) =~= all);
    r
}

/// The character for a decimal digit.
pub open spec fn digit(d: nat) -> char {
    (48 + d) as char
}

/// `n` in decimal, without leading zeros.
pub open spec fn decimal(n: nat) -> Text
    decreases n,
{
    if n < 10 {
        seq![digit(n)]
    } else {
        decimal(n / 10).push(digit(n % 10))
    }
}

/// `n` in decimal, with a minus sign where it is negative.
pub open spec fn signed_decimal(n: int) -> Text {
    if n < 0 {
        seq!['-'] + decimal((-n) as nat)
    } else {
        decimal(n as nat)
    }
}

fn digit_text(d: u64) -> (r: &'static str)
    requires
        d < 10,
    ensures
        r@ == seq![digit(d as nat)],
{
    proof {
        reveal_strlit("0");
        reveal_strlit("1");
        reveal_strlit("2");
        reveal_strlit("3");
        reveal_strlit("4");
        reveal_strlit("5");
        reveal_strlit("6");
        reveal_strlit("7");
        reveal_strlit("8");
        reveal_strlit("9");
    }
    let r = match d {
        0 => "0",
        1 => "1",
        2 => "2",
        3 => "3",
        4 => "4",
        5 => "5",
        6 => "6",
        7 => "7",
        8 => "8",
        _ => "9",
    };
    assert(r@ =~= seq![digit(d as nat)]);
    r
}

/// Write `n` in decimal.
pub fn decimal_text(n: u64) -> (r: String)
    ensures
        r@ == decimal(n as nat),
    decreases n,
{
    if n < 10 {
        digit_text(n).to_string()
    } else {
        let r = concat(decimal_text(n / 10).as_str(), digit_text(n % 10));
        assert(r@ =~= decimal((n / 10) as nat).push(digit((n % 10) as nat)));
        r
    }
}

/// Write `n` in decimal, with a minus sign where it is negative.
pub fn signed_decimal_text(n: i64) -> (r: String)
    ensures
        r@ == signed_decimal(n as int),
{
    if n < 0 {
        let magnitude: u64 = (-(n as i128)) as u64;
        proof {
            reveal_strlit("-");
        }
        let r = concat("-", decimal_text(magnitude).as_str());
        assert("-"@ =~= seq!['-']);
        r
    } else {
        decimal_text(n as u64)
    }
}

} // verus!
