//! Building and taking apart text, with every result stated over `Seq<char>`.

use vstd::prelude::*;
use vstd::string::*;

verus! {

/// The text of an optional string.
pub open spec fn opt_text(s: Option<String>) -> Option<Seq<char>> {
    match s {
        Some(t) => Some(t@),
        None => None,
    }
}

/// The text of an optional string slice.
pub open spec fn opt_str(s: Option<&str>) -> Option<Seq<char>> {
    match s {
        Some(t) => Some(t@),
        None => None,
    }
}

/// The texts of a list of strings.
pub open spec fn texts(v: Seq<String>) -> Seq<Seq<char>> {
    Seq::new(v.len(), |i: int| v[i]@)
}

/// The character of a decimal digit.
pub open spec fn digit_char(d: nat) -> char {
    if d == 0 {
        '0'
    } else if d == 1 {
        '1'
    } else if d == 2 {
        '2'
    } else if d == 3 {
        '3'
    } else if d == 4 {
        '4'
    } else if d == 5 {
        '5'
    } else if d == 6 {
        '6'
    } else if d == 7 {
        '7'
    } else if d == 8 {
        '8'
    } else {
        '9'
    }
}

/// `n` in decimal, without leading zeros.
pub open spec fn decimal(n: nat) -> Seq<char>
    decreases n,
{
    if n < 10 {
        seq![digit_char(n)]
    } else {
        decimal(n / 10).push(digit_char(n % 10))
    }
}

/// `n` in decimal, with a leading `-` where it is negative.
pub open spec fn signed_decimal(n: int) -> Seq<char> {
    if n < 0 {
        seq!['-'] + decimal((-n) as nat)
    } else {
        decimal(n as nat)
    }
}

fn digit_text(d: u64) -> (r: &'static str)
    requires
        d < 10,
    ensures
        r@ == seq![digit_char(d as nat)],
{
    proof {
        reveal_strlit("0");
        reveal_strlit("1");
        reveal_strlit("2");
        reveal_strlit("3");
        reveal_strlit("4");
        reveal_strlit("5");
        reveal_strlit("6");
        reveal_strlit("7");
        reveal_strlit("8");
        reveal_strlit("9");
    }
    match d {
        0 => "0",
        1 => "1",
        2 => "2",
        3 => "3",
        4 => "4",
        5 => "5",
        6 => "6",
        7 => "7",
        8 => "8",
        _ => "9",
    }
}

/// Writes an unsigned number in decimal.
pub fn decimal_text(n: u64) -> (r: String)
    ensures
        r@ == decimal(n as nat),
    decreases n,
{
    if n < 10 {
        digit_text(n).to_owned()
    } else {
        let head: String = decimal_text(n / 10);
        let r: String = head.concat(digit_text(n % 10));
        assert(r@ =~= decimal(n as nat));
        r
    }
}

/// Writes a signed number in decimal.
pub fn signed_decimal_text(n: i64) -> (r: String)
    ensures
        r@ == signed_decimal(n as int),
{
    if n == i64::MIN {
        let magnitude: String = decimal_text(9223372036854775808u64);
        proof {
            reveal_strlit("-");
            assert("-"@ =~= seq!['-']);
        }
        "-".to_owned().concat(magnitude.as_str())
    } else if n < 0 {
        let magnitude: String = decimal_text((-n) as u64);
        proof {
            reveal_strlit("-");
            assert("-"@ =~= seq!['-']);
        }
        "-".to_owned().concat(magnitude.as_str())
    } else {
        decimal_text(n as u64)
    }
}

/// `s` without the `c`s that it ends in.
pub open spec fn trim_end(s: Seq<char>, c: char) -> Seq<char>
    decreases s.len(),
{
    if s.len() > 0 && s.last() == c {
        trim_end(s.drop_last(), c)
    } else {
        s
    }
}

/// `s` without the `c`s that it begins with.
pub open spec fn trim_start(s: Seq<char>, c: char) -> Seq<char>
    decreases s.len(),
{
    if s.len() > 0 && s.first() == c {
        trim_start(s.drop_first(), c)
    } else {
        s
    }
}

/// The characters of a string.
pub fn chars_of(s: &str) -> (r: Vec<char>)
    ensures
        r@ == s@,
{
    let mut r: Vec<char> = Vec::new();
    for c in it: s.chars()
        invariant
            r@ == it.seq().take(it.index()),
            it.seq() == s@,
    {
        r.push(c);
    }
    r
}

/// Whether two strings have the same characters.
pub fn same_text(a: &str, b: &str) -> (r: bool)
    ensures
        r == (a@ == b@),
{
    let x: Vec<char> = chars_of(a);
    let y: Vec<char> = chars_of(b);
    if x.len() != y.len() {
        return false;
    }
    let mut i: usize = 0;
    while i < x.len()
        invariant
            x@ == a@,
            y@ == b@,
            x@.len() == y@.len(),
            i <= x@.len(),
            forall|j: int| 0 <= j < i ==> x@[j] == y@[j],
        decreases x@.len() - i,
    {
        if x[i] != y[i] {
            return false;
        }
        i = i + 1;
    }
    assert(x@ =~= y@);
    true
}

/// Whether `s` begins with `prefix`.
pub fn starts_with(s: &str, prefix: &str) -> (r: bool)
    ensures
        r == prefix@.is_prefix_of(s@),
{
    let x: Vec<char> = chars_of(s);
    let p: Vec<char> = chars_of(prefix);
    if x.len() < p.len() {
        return false;
    }
    let mut i: usize = 0;
    while i < p.len()
        invariant
            x@ == s@,
            p@ == prefix@,
            p@.len() <= x@.len(),
            i <= p@.len(),
            forall|j: int| 0 <= j < i ==> x@[j] == p@[j],
        decreases p@.len() - i,
    {
        if x[i] != p[i] {
            assert(prefix@[i as int] != s@.subrange(0, prefix@.len() as int)[i as int]);
            return false;
        }
        i = i + 1;
    }
    assert(p@ =~= x@.subrange(0, p@.len() as int));
    true
}

/// `s` without the slashes that it ends in.
pub fn trim_end_slashes(s: &str) -> (r: &str)
    ensures
        r@ == trim_end(s@, '/'),
{
    let x: Vec<char> = chars_of(s);
    let mut n: usize = x.len();
    assert(s@.take(n as int) =~= s@);
    while n > 0 && x[n - 1] == '/'
        invariant
            x@ == s@,
            n <= x@.len(),
            trim_end(s@, '/') == trim_end(s@.take(n as int), '/'),
        decreases n,
    {
        assert(s@.take(n as int).drop_last() =~= s@.take(n - 1));
        n = n - 1;
    }
    assert(s@.take(n as int) =~= s@.subrange(0, n as int));
    s.substring_char(0, n)
}

/// `s` without the slashes that it begins with.
pub fn trim_start_slashes(s: &str) -> (r: &str)
    ensures
        r@ == trim_start(s@, '/'),
{
    let x: Vec<char> = chars_of(s);
    let mut n: usize = 0;
    assert(s@.skip(0) =~= s@);
    while n < x.len() && x[n] == '/'
        invariant
            x@ == s@,
            n <= x@.len(),
            trim_start(s@, '/') == trim_start(s@.skip(n as int), '/'),
        decreases x@.len() - n,
    {
        assert(s@.skip(n as int).drop_first() =~= s@.skip(n + 1));
        n = n + 1;
    }
    assert(s@.skip(n as int) =~= s@.subrange(n as int, s@.len() as int));
    s.substring_char(n, x.len())
}

/// `parts` one behind the other, with `separator` between each two.
pub open spec fn joined(parts: Seq<Seq<char>>, separator: Seq<char>) -> Seq<char>
    decreases parts.len(),
{
    if parts.len() == 0 {
        Seq::empty()
    } else if parts.len() == 1 {
        parts[0]
    } else {
        joined(parts.drop_last(), separator) + separator + parts.last()
    }
}

/// Writes strings one behind the other, with `separator` between each two.
pub fn join(parts: &Vec<String>, separator: &str) -> (r: String)
    ensures
        r@ == joined(texts(parts@), separator@),
{
    let mut r: String = String::new();
    let mut i: usize = 0;
    assert(texts(parts@.take(0)) =~= Seq::empty());
    while i < parts.len()
        invariant
            i <= parts@.len(),
            r@ == joined(texts(parts@.take(i as int)), separator@),
        decreases parts@.len() - i,
    {
        let ghost longer = texts(parts@.take(i + 1));
        assert(longer.drop_last() =~= texts(parts@.take(i as int)));
        assert(longer.last() == parts@[i as int]@);
        if i == 0 {
            assert(longer =~= seq![parts@[0]@]);
            r = parts[i].clone();
        } else {
            r = r.concat(separator).concat(parts[i].as_str());
        }
        i = i + 1;
    }
    assert(parts@.take(i as int) =~= parts@);
    r
}

/// The number that decimal digits write.
pub open spec fn digits_value(text: Seq<char>) -> int
    decreases text.len(),
{
    if text.len() == 0 {
        0
    } else {
        digits_value(text.drop_last()) * 10 + (text.last() as int - '0' as int)
    }
}

/// A number in decimal reads back as the number, has digits only, and does not begin with
/// a zero unless it is zero.
pub proof fn decimals_read_back(n: nat)
    ensures
        digits_value(decimal(n)) == n,
        decimal(n).len() > 0,
        forall|i: int| 0 <= i < decimal(n).len() ==> '0' <= #[trigger] decimal(n)[i] <= '9',
        n > 0 ==> decimal(n)[0] != '0',
        n == 0 ==> decimal(n).len() == 1,
    decreases n,
{
    if n < 10 {
        assert(decimal(n).drop_last() =~= Seq::empty());
        assert(digits_value(Seq::<char>::empty()) == 0);
    } else {
        decimals_read_back(n / 10);
        assert(decimal(n).drop_last() =~= decimal(n / 10));
        assert(decimal(n)[0] == decimal(n / 10)[0]);
    }
}

/// A signed number is written as its size, behind a minus sign where it is negative.
pub proof fn signed_decimals_have_their_sign(n: int)
    ensures
        n >= 0 ==> signed_decimal(n) == decimal(n as nat),
        n < 0 ==> signed_decimal(n).len() > 0 && signed_decimal(n)[0] == '-' && signed_decimal(
            n,
        ).skip(1) == decimal((-n) as nat),
{
    if n < 0 {
        assert(signed_decimal(n).skip(1) =~= decimal((-n) as nat));
    }
}

/// What is trimmed off an end is just the characters that are to go: what stays does not
/// end with one, and what goes is nothing else.
pub proof fn trimmed_end_is_only_what_is_to_go(s: Seq<char>, c: char)
    ensures
        trim_end(s, c).is_prefix_of(s),
        trim_end(s, c).len() > 0 ==> trim_end(s, c).last() != c,
        forall|i: int| trim_end(s, c).len() <= i < s.len() ==> #[trigger] s[i] == c,
    decreases s.len(),
{
    if s.len() > 0 && s.last() == c {
        let rest = s.drop_last();
        trimmed_end_is_only_what_is_to_go(rest, c);
        let kept = trim_end(rest, c);
        assert(kept =~= s.subrange(0, kept.len() as int)) by {
            assert(kept =~= rest.subrange(0, kept.len() as int));
        }
        assert forall|i: int| kept.len() <= i < s.len() implies #[trigger] s[i] == c by {
            if i < rest.len() {
                assert(rest[i] == c);
            }
        }
    } else {
        assert(s =~= s.subrange(0, s.len() as int));
    }
}

/// What is trimmed off a beginning is just the characters that are to go.
pub proof fn trimmed_start_is_only_what_is_to_go(s: Seq<char>, c: char)
    ensures
        trim_start(s, c).len() <= s.len(),
        trim_start(s, c) == s.skip(s.len() - trim_start(s, c).len()),
        trim_start(s, c).len() > 0 ==> trim_start(s, c)[0] != c,
        forall|i: int| 0 <= i < s.len() - trim_start(s, c).len() ==> #[trigger] s[i] == c,
    decreases s.len(),
{
    if s.len() > 0 && s.first() == c {
        let rest = s.drop_first();
        trimmed_start_is_only_what_is_to_go(rest, c);
        let kept = trim_start(rest, c);
        assert(kept =~= s.skip(s.len() - kept.len()));
        assert forall|i: int| 0 <= i < s.len() - kept.len() implies #[trigger] s[i] == c by {
            if i > 0 {
                assert(rest[i - 1] == c);
            }
        }
    } else {
        assert(s =~= s.skip(0));
    }
}

/// Parts are joined in order, with the separator between each two and nowhere else.
pub proof fn separators_stand_between_parts(
    parts: Seq<Seq<char>>,
    separator: Seq<char>,
    next: Seq<char>,
)
    ensures
        joined(Seq::<Seq<char>>::empty(), separator) == Seq::<char>::empty(),
        joined(parts.push(next), separator) == if parts.len() == 0 {
            next
        } else {
            joined(parts, separator) + separator + next
        },
{
    assert(parts.push(next).drop_last() =~= parts);
}

}
