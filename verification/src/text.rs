//! Names: joining, splitting and numbering them.
use vstd::prelude::*;

use crate::dict::views;
use itertools::Itertools;

verus! {

/// The parts one after the other, with `sep` between each two.
pub open spec fn joined(parts: Seq<Seq<char>>, sep: Seq<char>) -> Seq<char>
    decreases parts.len(),
{
    if parts.len() == 0 {
        Seq::empty()
    } else if parts.len() == 1 {
        parts[0]
    } else {
        joined(parts.drop_last(), sep) + sep + parts.last()
    }
}

/// The text before the first `c`, all of it where there is none.
pub open spec fn before(s: Seq<char>, c: char) -> Seq<char>
    decreases s.len(),
{
    if s.len() == 0 || s[0] == c {
        Seq::empty()
    } else {
        seq![s[0]] + before(s.drop_first(), c)
    }
}

/// The pieces of the text between the occurrences of `c`.
pub open spec fn split(s: Seq<char>, c: char) -> Seq<Seq<char>>
    decreases s.len(),
{
    let head = before(s, c);
    if head.len() >= s.len() {
        seq![s]
    } else {
        seq![head] + split(s.skip(head.len() as int + 1), c)
    }
}

/// The decimal digit of a number below ten.
pub open spec fn digit(d: int) -> Seq<char> {
    if d == 0 {
        "0"@
    } else if d == 1 {
        "1"@
    } else if d == 2 {
        "2"@
    } else if d == 3 {
        "3"@
    } else if d == 4 {
        "4"@
    } else if d == 5 {
        "5"@
    } else if d == 6 {
        "6"@
    } else if d == 7 {
        "7"@
    } else if d == 8 {
        "8"@
    } else {
        "9"@
    }
}

/// A number written in decimal, without leading zeros.
pub open spec fn decimal(n: int) -> Seq<char>
    decreases n,
{
    if n < 10 {
        digit(n)
    } else {
        decimal(n / 10) + digit(n % 10)
    }
}

/// The prefix that ends at the first `c` is the one that `before` gives.
pub proof fn lemma_before_is(s: Seq<char>, c: char, n: int)
    requires
        0 <= n <= s.len(),
        forall|i: int| 0 <= i < n ==> s[i] != c,
        n < s.len() ==> s[n] == c,
    ensures
        before(s, c) == s.take(n),
    decreases s.len(),
{
    if n == 0 {
        assert(s.take(0) =~= Seq::empty());
    } else {
        lemma_before_is(s.drop_first(), c, n - 1);
        assert(seq![s[0]] + s.drop_first().take(n - 1) =~= s.take(n));
    }
}

/// Text without `c` is its own only piece, and a piece in front of a `c` is split off.
pub proof fn lemma_split_head(head: Seq<char>, rest: Seq<char>, c: char)
    requires
        !head.contains(c),
    ensures
        split(head, c) == seq![head],
        split(head + seq![c] + rest, c) == seq![head] + split(rest, c),
{
    assert forall|i: int| 0 <= i < head.len() implies head[i] != c by {
        assert(head.contains(head[i]));
    }
    lemma_before_is(head, c, head.len() as int);
    assert(head.take(head.len() as int) =~= head);
    let s = head + seq![c] + rest;
    assert(s[head.len() as int] == c);
    assert forall|i: int| 0 <= i < head.len() implies s[i] != c by {
        assert(s[i] == head[i]);
    }
    lemma_before_is(s, c, head.len() as int);
    assert(s.take(head.len() as int) =~= head);
    assert(s.skip(head.len() as int + 1) =~= rest);
}

/// `joined` unrolled at the front.
pub proof fn lemma_joined_front(first: Seq<char>, rest: Seq<Seq<char>>, sep: Seq<char>)
    requires
        rest.len() > 0,
    ensures
        joined(seq![first] + rest, sep) == first + sep + joined(rest, sep),
    decreases rest.len(),
{
    let all = seq![first] + rest;
    assert(all.last() == rest.last());
    if rest.len() == 1 {
        assert(all.drop_last() =~= seq![first]);
        assert(joined(all.drop_last(), sep) == first);
    } else {
        assert(all.drop_last() =~= seq![first] + rest.drop_last());
        lemma_joined_front(first, rest.drop_last(), sep);
        assert(first + sep + joined(rest.drop_last(), sep) + sep + rest.last() =~= first + sep + (
        joined(rest.drop_last(), sep) + sep + rest.last()));
    }
}

/// Splitting a dotted name gives back the parts it was joined from, where none of them has a dot.
pub proof fn law_split_undoes_join(parts: Seq<Seq<char>>)
    requires
        parts.len() > 0,
        forall|i: int| 0 <= i < parts.len() ==> !(#[trigger] parts[i]).contains('.'),
    ensures
        split(joined(parts, "."@), '.') == parts,
    decreases parts.len(),
{
    reveal_strlit(".");
    assert("."@ =~= seq!['.']);
    if parts.len() == 1 {
        lemma_split_head(parts[0], Seq::empty(), '.');
        assert(parts =~= seq![parts[0]]);
    } else {
        let rest = parts.drop_first();
        assert(parts =~= seq![parts[0]] + rest);
        assert forall|i: int| 0 <= i < rest.len() implies !(#[trigger] rest[i]).contains('.') by {
            assert(rest[i] == parts[i + 1]);
        }
        lemma_joined_front(parts[0], rest, "."@);
        lemma_split_head(parts[0], joined(rest, "."@), '.');
        law_split_undoes_join(rest);
    }
}

/// Joining the pieces of a text gives the text back.
pub proof fn lemma_join_undoes_split(s: Seq<char>, c: char)
    ensures
        joined(split(s, c), seq![c]) == s,
    decreases s.len(),
{
    let head = before(s, c);
    lemma_before_prefix(s, c);
    if head.len() < s.len() {
        let rest = s.skip(head.len() as int + 1);
        lemma_join_undoes_split(rest, c);
        lemma_split_len(rest, c);
        lemma_joined_front(head, split(rest, c), seq![c]);
        assert(head + seq![c] + rest =~= s);
    }
}

/// What is before the first `c` is the front of the text, and `c` is behind it.
proof fn lemma_before_prefix(s: Seq<char>, c: char)
    ensures
        before(s, c).len() <= s.len(),
        before(s, c) == s.take(before(s, c).len() as int),
        before(s, c).len() < s.len() ==> s[before(s, c).len() as int] == c,
    decreases s.len(),
{
    if s.len() > 0 && s[0] != c {
        let rest = s.drop_first();
        lemma_before_prefix(rest, c);
        assert(before(s, c) =~= s.take(before(s, c).len() as int));
        assert(rest.take(before(rest, c).len() as int) =~= before(rest, c));
    }
}

/// There is always a piece.
pub proof fn lemma_split_len(s: Seq<char>, c: char)
    ensures
        split(s, c).len() > 0,
{
}

/// Two numbers that are written alike are the same number.
pub proof fn law_decimal_injective(m: int, n: int)
    requires
        0 <= m,
        0 <= n,
        decimal(m) == decimal(n),
    ensures
        m == n,
    decreases m + n,
{
    lemma_digits();
    lemma_decimal_len(m);
    lemma_decimal_len(n);
    if m < 10 && n < 10 {
    } else if m < 10 {
        lemma_decimal_len(n / 10);
        assert(false);
    } else if n < 10 {
        lemma_decimal_len(m / 10);
        assert(false);
    } else {
        let a = decimal(m);
        let b = decimal(n);
        assert(decimal(m / 10) =~= a.drop_last());
        assert(decimal(n / 10) =~= b.drop_last());
        assert(a.last() == digit(m % 10)[0]);
        assert(b.last() == digit(n % 10)[0]);
        assert(digit(m % 10) =~= digit(n % 10));
        law_decimal_injective(m / 10, n / 10);
    }
}

proof fn lemma_digits()
    ensures
        forall|d: int| (#[trigger] digit(d)).len() == 1,
        forall|d: int, e: int|
            0 <= d < 10 && 0 <= e < 10 && #[trigger] digit(d) == #[trigger] digit(e) ==> d == e,
{
    reveal_strlit("0");
    reveal_strlit("1");
    reveal_strlit("2");
    reveal_strlit("3");
    reveal_strlit("4");
    reveal_strlit("5");
    reveal_strlit("6");
    reveal_strlit("7");
    reveal_strlit("8");
    reveal_strlit("9");
    assert forall|d: int, e: int|
        0 <= d < 10 && 0 <= e < 10 && #[trigger] digit(d) == #[trigger] digit(e) implies d == e by {
        assert(digit(d)[0] == digit(e)[0]);
    }
}

proof fn lemma_decimal_len(n: int)
    requires
        0 <= n,
    ensures
        decimal(n).len() >= 1,
    decreases n,
{
    lemma_digits();
    if n >= 10 {
        lemma_decimal_len(n / 10);
    }
}

/// `itertools::Itertools::join` over strings: the parts in order, with `sep` between each two.
#[verifier::external_body]
pub(crate) fn join(parts: &Vec<String>, sep: &str) -> (res: String)
    ensures
        res@ == joined(views(parts@), sep@),
{
    parts.iter().join(sep)
}

/// Two texts, one after the other.
pub(crate) fn concat(a: &str, b: &str) -> (res: String)
    ensures
        res@ == a@ + b@,
{
    let mut res = a.to_owned();
    res.append(b);
    res
}

/// Whether a name is spelled like this.
pub(crate) fn is(name: &String, text: &str) -> (res: bool)
    ensures
        res == (name@ == text@),
{
    *name == text.to_owned()
}

/// The text before the first `c`.
pub fn prefix_before(s: &str, c: char) -> (res: String)
    ensures
        res@ == before(s@, c),
{
    let n: usize = s.unicode_len();
    let mut i: usize = 0;
    while i < n && s.get_char(i) != c
        invariant
            n == s@.len(),
            i <= n,
            forall|j: int| 0 <= j < i ==> s@[j] != c,
        decreases n - i,
    {
        i += 1;
    }
    proof {
        lemma_before_is(s@, c, i as int);
        assert(s@.subrange(0, i as int) =~= s@.take(i as int));
    }
    s.substring_char(0, i).to_owned()
}

/// The pieces of the text between the occurrences of `c`.
pub fn split_at_each(s: &str, c: char) -> (res: Vec<String>)
    ensures
        views(res@) == split(s@, c),
{
    broadcast use crate::dict::group_views;

    let n: usize = s.unicode_len();
    let mut res: Vec<String> = Vec::new();
    let mut start: usize = 0;
    let mut i: usize = 0;
    assert(s@.skip(0) =~= s@);
    assert(views(res@) + split(s@.skip(0), c) =~= split(s@, c));
    while i < n
        invariant
            n == s@.len(),
            start <= i <= n,
            forall|j: int| start <= j < i ==> s@[j] != c,
            views(res@) + split(s@.skip(start as int), c) == split(s@, c),
        decreases n - i,
    {
        if s.get_char(i) == c {
            proof {
                let tail = s@.skip(start as int);
                lemma_before_is(tail, c, i - start);
                assert(tail.take(i - start) =~= s@.subrange(start as int, i as int));
                assert(tail.skip(i - start + 1) =~= s@.skip(i as int + 1));
                let head = s@.subrange(start as int, i as int);
                assert(views(res@).push(head) + split(s@.skip(i as int + 1), c) =~= views(res@) + (
                seq![head] + split(s@.skip(i as int + 1), c)));
            }
            res.push(s.substring_char(start, i).to_owned());
            start = i + 1;
        }
        i += 1;
    }
    proof {
        let tail = s@.skip(start as int);
        lemma_before_is(tail, c, n - start);
        assert(tail.take(n - start) =~= tail);
        assert(s@.subrange(start as int, n as int) =~= tail);
        assert(views(res@) + seq![tail] =~= views(res@).push(tail));
    }
    res.push(s.substring_char(start, n).to_owned());
    res
}

/// A number written in decimal.
pub fn number(n: usize) -> (res: String)
    ensures
        res@ == decimal(n as int),
    decreases n,
{
    if n < 10 {
        digit_str(n).to_owned()
    } else {
        let mut res = number(n / 10);
        res.append(digit_str(n % 10));
        res
    }
}

fn digit_str(d: usize) -> (res: &'static str)
    requires
        d < 10,
    ensures
        res@ == digit(d as int),
{
    match d {
        0 => "0",
        1 => "1",
        2 => "2",
        3 => "3",
        4 => "4",
        5 => "5",
        6 => "6",
        7 => "7",
        8 => "8",
        _ => "9",
    }
}

/// The number that digits are read as, the last one being that of the ones.
pub open spec fn read_decimal(s: Seq<char>) -> int
    decreases s.len(),
{
    if s.len() == 0 {
        0
    } else {
        10 * read_decimal(s.drop_last()) + (s.last() as int - '0' as int)
    }
}

/// A number that is written in decimal is read as itself, and it is written with no more digits
/// than it takes.
pub proof fn law_decimal_reads_back(n: int)
    requires
        n >= 0,
    ensures
        read_decimal(decimal(n)) == n,
        decimal(n).len() > 0,
        n > 0 ==> decimal(n)[0] != '0',
        forall|i: int| 0 <= i < decimal(n).len() ==> '0' <= #[trigger] decimal(n)[i] <= '9',
    decreases n,
{
    reveal_strlit("0");
    reveal_strlit("1");
    reveal_strlit("2");
    reveal_strlit("3");
    reveal_strlit("4");
    reveal_strlit("5");
    reveal_strlit("6");
    reveal_strlit("7");
    reveal_strlit("8");
    reveal_strlit("9");
    let last = digit(n % 10);
    assert(last.len() == 1);
    assert(last[0] as int == '0' as int + n % 10);
    if n < 10 {
        assert(decimal(n) == last);
        assert(last.drop_last() =~= Seq::<char>::empty());
        assert(read_decimal(last.drop_last()) == 0);
    } else {
        law_decimal_reads_back(n / 10);
        let rest = decimal(n / 10);
        assert(decimal(n) == rest + last);
        assert(decimal(n).drop_last() =~= rest);
        assert(decimal(n)[0] == rest[0]);
    }
}

/// Parts that are joined stand one after the other, with the separator between each two.
pub proof fn law_joined(parts: Seq<Seq<char>>, part: Seq<char>, sep: Seq<char>)
    ensures
        joined(Seq::empty(), sep).len() == 0,
        joined(seq![part], sep) == part,
        parts.len() > 0 ==> joined(parts.push(part), sep) == joined(parts, sep) + sep + part,
{
    assert(parts.push(part).drop_last() =~= parts);
}

/// What stands before a character is the longest beginning of a text without it.
pub proof fn law_before(s: Seq<char>, c: char)
    ensures
        before(s, c).is_prefix_of(s),
        !before(s, c).contains(c),
        before(s, c).len() < s.len() ==> s[before(s, c).len() as int] == c,
    decreases s.len(),
{
    if s.len() > 0 && s[0] != c {
        let rest = s.drop_first();
        law_before(rest, c);
        let head = before(rest, c);
        let all = before(s, c);
        assert(all == seq![s[0]] + head);
        assert(all =~= s.subrange(0, all.len() as int)) by {
            assert(head =~= rest.subrange(0, head.len() as int));
            assert forall|i: int| 0 <= i < all.len() implies all[i] == s[i] by {
                if i > 0 {
                    assert(head[i - 1] == rest.subrange(0, head.len() as int)[i - 1]);
                }
            }
        }
        if all.contains(c) {
            let i = choose|i: int| 0 <= i < all.len() && all[i] == c;
            assert(head[i - 1] == c);
        }
        assert(rest.len() == s.len() - 1);
    } else {
        assert(before(s, c) =~= s.subrange(0, 0));
    }
}

} // verus!
