//! The text layer of the protocol: the characters of a line, its words, and
//! decimal integers read and written.

use std::str::Chars;
use vstd::prelude::*;
use vstd::std_specs::iter::IteratorSpec;
use vstd::string::StringExecFns;

verus! {

/// The characters of `s`, one by one.
pub fn chars_of(s: &str) -> (v: Vec<char>)
    ensures
        v@ == s@,
{
    broadcast use vstd::string::next_postcondition, vstd::string::axiom_spec_iter;

    let mut it: Chars<'_> = s.chars();
    let mut v: Vec<char> = Vec::new();
    loop
        invariant
            v@ + it.remaining() == s@,
            it.obeys_prophetic_iter_laws(),
            it.decrease() is Some,
        decreases it.decrease()->0,
    {
        match it.next() {
            Some(c) => {
                v.push(c);
                assert(v@ + it.remaining() =~= s@);
            },
            None => {
                assert(v@ =~= s@);
                return v;
            },
        }
    }
}

/// Whether two strings hold the same characters.
pub fn same_text(a: &str, b: &str) -> (same: bool)
    ensures
        same == (a@ == b@),
{
    let x = chars_of(a);
    let y = chars_of(b);
    if x.len() != y.len() {
        return false;
    }
    let n: usize = x.len();
    let mut i: usize = 0;
    while i < n
        invariant
            i <= n,
            n == x@.len(),
            n == y@.len(),
            x@ == a@,
            y@ == b@,
            forall|j: int| 0 <= j < i ==> x@[j] == y@[j],
        decreases n - i,
    {
        if x[i] != y[i] {
            return false;
        }
        i += 1;
    }
    assert(x@ =~= y@);
    true
}

/// The characters that separate words: those that Unicode marks as
/// `White_Space`.
pub open spec fn is_space(c: char) -> bool {
    let u = c as u32;
    ||| 0x09 <= u <= 0x0D
    ||| u == 0x20
    ||| u == 0x85
    ||| u == 0xA0
    ||| u == 0x1680
    ||| 0x2000 <= u <= 0x200A
    ||| u == 0x2028
    ||| u == 0x2029
    ||| u == 0x202F
    ||| u == 0x205F
    ||| u == 0x3000
}

/// Whether `c` separates words.
pub fn is_space_char(c: char) -> (b: bool)
    ensures
        b == is_space(c),
{
    let u: u32 = c as u32;
    (0x09 <= u && u <= 0x0D) || u == 0x20 || u == 0x85 || u == 0xA0 || u == 0x1680 || (0x2000 <= u
        && u <= 0x200A) || u == 0x2028 || u == 0x2029 || u == 0x202F || u == 0x205F || u == 0x3000
}

/// The words of a line: its maximal runs of characters that are not
/// separators, from left to right. Read from the end: a separator adds
/// nothing, a character after a character extends the last word, and any
/// other character opens a new one.
pub open spec fn words(s: Seq<char>) -> Seq<Seq<char>>
    decreases s.len(),
{
    if s.len() == 0 {
        Seq::empty()
    } else {
        let before = words(s.drop_last());
        let c = s.last();
        if is_space(c) {
            before
        } else if s.len() >= 2 && !is_space(s[s.len() - 2]) {
            before.drop_last().push(before.last().push(c))
        } else {
            before.push(seq![c])
        }
    }
}

/// What a vector of string slices holds.
pub open spec fn views(v: Seq<&str>) -> Seq<Seq<char>> {
    Seq::new(v.len(), |i: int| v[i]@)
}

/// Splits a line into its words.
pub fn split_words<'a>(s: &'a str) -> (toks: Vec<&'a str>)
    ensures
        views(toks@) == words(s@),
{
    let cs = chars_of(s);
    let n: usize = cs.len();
    let mut toks: Vec<&'a str> = Vec::new();
    let mut i: usize = 0;
    let mut start: usize = 0;
    let mut inside = false;
    assert(cs@.take(0) =~= Seq::<char>::empty());
    assert(views(toks@) =~= Seq::<Seq<char>>::empty());
    while i < n
        invariant
            i <= n,
            n == cs@.len(),
            cs@ == s@,
            inside ==> start < i && !is_space(cs@[i - 1]) && words(cs@.take(i as int)) == views(
                toks@,
            ).push(cs@.subrange(start as int, i as int)),
            !inside ==> (i == 0 || is_space(cs@[i - 1])) && words(cs@.take(i as int)) == views(
                toks@,
            ),
        decreases n - i,
    {
        let c = cs[i];
        let ghost prefix = cs@.take(i as int);
        let ghost next = cs@.take(i + 1);
        let ghost done = views(toks@);
        proof {
            assert(next.drop_last() =~= prefix);
            assert(next.last() == c);
            assert(i > 0 ==> next[next.len() - 2] == cs@[i - 1]);
        }
        if is_space_char(c) {
            if inside {
                let w = s.substring_char(start, i);
                toks.push(w);
                inside = false;
                assert(views(toks@) =~= done.push(cs@.subrange(start as int, i as int)));
            }
        } else {
            if !inside {
                start = i;
                inside = true;
                assert(cs@.subrange(i as int, i + 1) =~= seq![c]);
            } else {
                let ghost part = cs@.subrange(start as int, i as int);
                assert(done.push(part).drop_last() =~= done);
                assert(part.push(c) =~= cs@.subrange(start as int, i + 1));
            }
        }
        i += 1;
    }
    assert(cs@.take(n as int) =~= cs@);
    if inside {
        let ghost done = views(toks@);
        let w = s.substring_char(start, n);
        toks.push(w);
        assert(views(toks@) =~= done.push(cs@.subrange(start as int, n as int)));
    }
    toks
}

/// Whether `c` is one of the ten decimal digits.
pub open spec fn is_digit(c: char) -> bool {
    0x30 <= c as u32 <= 0x39
}

/// The number that the digit `c` stands for.
pub open spec fn digit_value(c: char) -> int {
    c as u32 - 0x30
}

/// The number that a row of digits stands for; the empty row stands for 0.
pub open spec fn decimal(s: Seq<char>) -> int
    decreases s.len(),
{
    if s.len() == 0 {
        0
    } else {
        decimal(s.drop_last()) * 10 + digit_value(s.last())
    }
}

/// Whether every character of `s` is a digit.
pub open spec fn all_digits(s: Seq<char>) -> bool {
    forall|i: int| 0 <= i < s.len() ==> is_digit(#[trigger] s[i])
}

/// The characters of `s` after its sign, if it starts with one.
pub open spec fn unsigned_part(s: Seq<char>) -> Seq<char> {
    if s.len() > 0 && (s[0] == '-' || s[0] == '+') {
        s.drop_first()
    } else {
        s
    }
}

/// The 32-bit signed integer that `s` writes: an optional `+` or `-`, then
/// one digit or more, nothing else; and nothing where the number does not
/// fit.
pub open spec fn parse_int(s: Seq<char>) -> Option<int> {
    let body = unsigned_part(s);
    let size = decimal(body);
    let value = if s.len() > 0 && s[0] == '-' {
        -size
    } else {
        size
    };
    if body.len() > 0 && all_digits(body) && i32::MIN <= value <= i32::MAX {
        Some(value)
    } else {
        None
    }
}

/// A row of digits never stands for a negative number, and a longer row for
/// no less than the row it extends.
proof fn lemma_decimal_grows(s: Seq<char>)
    requires
        s.len() > 0,
        all_digits(s),
    ensures
        0 <= decimal(s.drop_last()) <= decimal(s),
    decreases s.len(),
{
    let init = s.drop_last();
    if init.len() > 0 {
        assert forall|i: int| 0 <= i < init.len() implies is_digit(#[trigger] init[i]) by {
            assert(init[i] == s[i]);
        }
        lemma_decimal_grows(init);
    }
    assert(is_digit(s[s.len() - 1]));
}

/// Reads a 32-bit signed integer written in decimal.
pub fn parse_i32(s: &str) -> (r: Option<i32>)
    ensures
        match r {
            Some(v) => parse_int(s@) == Some(v as int),
            None => parse_int(s@) is None,
        },
{
    let cs = chars_of(s);
    let n: usize = cs.len();
    if n == 0 {
        return None;
    }
    let negative = cs[0] == '-';
    let begin: usize = if cs[0] == '-' || cs[0] == '+' {
        1
    } else {
        0
    };
    if begin == n {
        return None;
    }
    let ghost body = unsigned_part(s@);
    assert(body =~= cs@.subrange(begin as int, n as int));
    let limit: u64 = 0x8000_0000;
    let mut size: u64 = 0;
    let mut i: usize = begin;
    assert(body.take(0) =~= Seq::<char>::empty());
    while i < n
        invariant
            begin <= i <= n,
            n == cs@.len(),
            cs@ == s@,
            n > 0,
            negative == (cs@[0] == '-'),
            body == unsigned_part(s@),
            body == cs@.subrange(begin as int, n as int),
            limit == 0x8000_0000,
            all_digits(body.take(i - begin)),
            0 <= decimal(body.take(i - begin)),
            decimal(body.take(i - begin)) <= limit ==> size == decimal(body.take(i - begin)),
            decimal(body.take(i - begin)) > limit ==> size == limit + 1,
        decreases n - i,
    {
        let c = cs[i];
        let u: u32 = c as u32;
        assert(body[i - begin] == c);
        if u < 0x30 || u > 0x39 {
            assert(!is_digit(body[i - begin]));
            return None;
        }
        let ghost next = body.take(i - begin + 1);
        proof {
            assert(next.drop_last() =~= body.take(i - begin));
            assert(next.last() == cs@[i as int]);
            assert forall|j: int| 0 <= j < next.len() implies is_digit(#[trigger] next[j]) by {
                if j < next.len() - 1 {
                    assert(next[j] == body.take(i - begin)[j]);
                }
            }
            lemma_decimal_grows(next);
        }
        if size <= limit {
            size = size * 10 + (u - 0x30) as u64;
            if size > limit {
                size = limit + 1;
            }
        }
        i += 1;
    }
    assert(body.take(n - begin) =~= body);
    if negative {
        if size > limit {
            None
        } else if size == limit {
            Some(i32::MIN)
        } else {
            Some(-(size as i32))
        }
    } else {
        if size >= limit {
            None
        } else {
            Some(size as i32)
        }
    }
}

/// The character that writes the digit `d`.
pub open spec fn digit_char(d: int) -> char {
    if d == 0 {
        '0'
    } else if d == 1 {
        '1'
    } else if d == 2 {
        '2'
    } else if d == 3 {
        '3'
    } else if d == 4 {
        '4'
    } else if d == 5 {
        '5'
    } else if d == 6 {
        '6'
    } else if d == 7 {
        '7'
    } else if d == 8 {
        '8'
    } else {
        '9'
    }
}

/// A natural number written in decimal, without leading zeros.
pub open spec fn render_nat(n: nat) -> Seq<char>
    decreases n,
{
    if n < 10 {
        seq![digit_char(n as int)]
    } else {
        render_nat(n / 10).push(digit_char((n % 10) as int))
    }
}

/// An integer written in decimal, with `-` before a negative one.
pub open spec fn render_int(i: int) -> Seq<char> {
    if i < 0 {
        seq!['-'] + render_nat((-i) as nat)
    } else {
        render_nat(i as nat)
    }
}

/// The one-character string that writes the digit `d`.
fn digit_str(d: u32) -> (s: &'static str)
    requires
        d < 10,
    ensures
        s@ == seq![digit_char(d as int)],
{
    proof {
        reveal_strlit("0");
        reveal_strlit("1");
        reveal_strlit("2");
        reveal_strlit("3");
        reveal_strlit("4");
        reveal_strlit("5");
        reveal_strlit("6");
        reveal_strlit("7");
        reveal_strlit("8");
        reveal_strlit("9");
    }
    let s = if d == 0 {
        "0"
    } else if d == 1 {
        "1"
    } else if d == 2 {
        "2"
    } else if d == 3 {
        "3"
    } else if d == 4 {
        "4"
    } else if d == 5 {
        "5"
    } else if d == 6 {
        "6"
    } else if d == 7 {
        "7"
    } else if d == 8 {
        "8"
    } else {
        "9"
    };
    assert(s@ =~= seq![digit_char(d as int)]);
    s
}

/// Writes a natural number in decimal.
pub fn render_u32(n: u32) -> (s: String)
    ensures
        s@ == render_nat(n as nat),
    decreases n,
{
    if n < 10 {
        String::from_str(digit_str(n))
    } else {
        let mut s = render_u32(n / 10);
        s.append(digit_str(n % 10));
        assert(s@ =~= render_nat(n as nat));
        s
    }
}

/// Writes an integer in decimal.
pub fn render_i32(i: i32) -> (s: String)
    ensures
        s@ == render_int(i as int),
{
    if i < 0 {
        let size: u32 = if i == i32::MIN {
            0x8000_0000
        } else {
            (-i) as u32
        };
        proof {
            reveal_strlit("-");
        }
        let mut s = String::from_str("-");
        let digits = render_u32(size);
        s.append(digits.as_str());
        assert(s@ =~= render_int(i as int));
        s
    } else {
        render_u32(i as u32)
    }
}

/// A line that ends in a character that is no separator has a word.
pub proof fn words_of_line_ending_in_word(s: Seq<char>)
    requires
        s.len() > 0,
        !is_space(s.last()),
    ensures
        words(s).len() > 0,
{
}

/// Every word of a line has a character, and none of its characters is a
/// separator.
pub proof fn words_hold_no_separator(s: Seq<char>)
    ensures
        forall|i: int|
            0 <= i < words(s).len() ==> {
                &&& (#[trigger] words(s)[i]).len() > 0
                &&& forall|j: int| 0 <= j < words(s)[i].len() ==> !is_space(words(s)[i][j])
            },
    decreases s.len(),
{
    if s.len() > 0 {
        let init = s.drop_last();
        words_hold_no_separator(init);
        if !is_space(s.last()) && s.len() >= 2 && !is_space(s[s.len() - 2]) {
            assert(init.last() == s[s.len() - 2]);
            words_of_line_ending_in_word(init);
            let before = words(init);
            let grown = before.last().push(s.last());
            assert forall|i: int| 0 <= i < words(s).len() implies {
                &&& (#[trigger] words(s)[i]).len() > 0
                &&& forall|j: int| 0 <= j < words(s)[i].len() ==> !is_space(words(s)[i][j])
            } by {
                if i < before.len() - 1 {
                    assert(words(s)[i] == before[i]);
                } else {
                    assert(words(s)[i] == grown);
                    assert forall|j: int| 0 <= j < grown.len() implies !is_space(grown[j]) by {
                        if j < before.last().len() {
                            assert(grown[j] == before[before.len() - 1][j]);
                        }
                    }
                }
            }
        }
    }
}

/// A line without a separator that has a character is one word.
pub proof fn words_of_one_word(s: Seq<char>)
    requires
        s.len() > 0,
        forall|i: int| 0 <= i < s.len() ==> !is_space(#[trigger] s[i]),
    ensures
        words(s) == seq![s],
    decreases s.len(),
{
    let init = s.drop_last();
    if init.len() > 0 {
        assert forall|i: int| 0 <= i < init.len() implies !is_space(#[trigger] init[i]) by {
            assert(init[i] == s[i]);
        }
        words_of_one_word(init);
        assert(!is_space(s[s.len() - 2]));
        assert(!is_space(s[s.len() - 1]));
        assert(init.push(s.last()) =~= s);
        assert(seq![init].last() == init);
        assert(seq![init].drop_last() =~= Seq::<Seq<char>>::empty());
        assert(Seq::<Seq<char>>::empty().push(s) =~= seq![s]);
    } else {
        assert(!is_space(s[0]));
        assert(seq![s.last()] =~= s);
        assert(words(init) =~= Seq::<Seq<char>>::empty());
        assert(Seq::<Seq<char>>::empty().push(s) =~= seq![s]);
    }
}

/// The words of two lines with a separator between them are the words of
/// the first and then the words of the second.
pub proof fn words_around_separator(a: Seq<char>, sep: char, b: Seq<char>)
    requires
        is_space(sep),
    ensures
        words(a.push(sep) + b) == words(a) + words(b),
    decreases b.len(),
{
    let s = a.push(sep) + b;
    if b.len() == 0 {
        assert(s =~= a.push(sep));
        assert(s.drop_last() =~= a);
        assert(words(a) + words(b) =~= words(a));
    } else {
        let rest = b.drop_last();
        let c = b.last();
        words_around_separator(a, sep, rest);
        assert(s.drop_last() =~= a.push(sep) + rest);
        assert(s.last() == c);
        assert(s[s.len() - 2] == if rest.len() > 0 {
            rest.last()
        } else {
            sep
        });
        if is_space(c) {
        } else if b.len() >= 2 && !is_space(b[b.len() - 2]) {
            assert(rest.last() == b[b.len() - 2]);
            words_of_line_ending_in_word(rest);
            let x = words(a);
            let y = words(rest);
            assert((x + y).drop_last().push((x + y).last().push(c)) =~= x + y.drop_last().push(
                y.last().push(c),
            ));
        } else {
            assert(rest.len() > 0 ==> rest.last() == b[b.len() - 2]);
            assert((words(a) + words(rest)).push(seq![c]) =~= words(a) + words(rest).push(
                seq![c],
            ));
        }
    }
}

/// A natural number written in decimal is a row of digits, with a digit at
/// least, that stands for the number.
pub proof fn written_nat_reads_back(n: nat)
    ensures
        render_nat(n).len() > 0,
        all_digits(render_nat(n)),
        decimal(render_nat(n)) == n,
    decreases n,
{
    if n < 10 {
        let s = render_nat(n);
        assert(s.drop_last() =~= Seq::<char>::empty());
        assert(decimal(s.drop_last()) == 0);
    } else {
        written_nat_reads_back(n / 10);
        let init = render_nat(n / 10);
        let s = render_nat(n);
        assert(s.drop_last() =~= init);
        assert forall|i: int| 0 <= i < s.len() implies is_digit(#[trigger] s[i]) by {
            if i < init.len() {
                assert(s[i] == init[i]);
            }
        }
    }
}

/// Every 32-bit signed integer, written in decimal, is read back as itself.
pub proof fn written_int_reads_back(i: int)
    requires
        i32::MIN <= i <= i32::MAX,
    ensures
        parse_int(render_int(i)) == Some(i),
{
    let s = render_int(i);
    if i < 0 {
        written_nat_reads_back((-i) as nat);
        assert(s.drop_first() =~= render_nat((-i) as nat));
    } else {
        written_nat_reads_back(i as nat);
        assert(is_digit(s[0]));
    }
}

} // verus!
