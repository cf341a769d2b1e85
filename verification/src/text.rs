//! Text as sequences of characters: trimming, lines, numbers, padding and order.
use vstd::prelude::*;
use vstd::slice::slice_subrange;
use vstd::string::*;

verus! {

/// The texts of a list of strings.
pub open spec fn texts(v: Seq<String>) -> Seq<Seq<char>> {
    v.map_values(|s: String| s@)
}

/// The text of an optional string slice.
pub open spec fn opt_str(s: Option<&str>) -> Option<Seq<char>> {
    match s {
        Some(s) => Some(s@),
        None => None,
    }
}

/// `String::push` puts one character at the end.
pub assume_specification[ String::push ](s: &mut String, c: char)
    ensures
        final(s)@ == old(s)@.push(c),
;

/// The characters of a text, one by one.
pub fn to_chars(s: &str) -> (r: Vec<char>)
    ensures
        r@ == s@,
{
    let mut r: Vec<char> = Vec::new();
    for c in it: s.chars()
        invariant
            it.seq() == s@,
            r@ == it.seq().take(it.index() as int),
    {
        r.push(c);
    }
    assert(r@ == s@);
    r
}

/// The text that a list of characters spells.
pub fn from_chars(v: &[char]) -> (r: String)
    ensures
        r@ == v@,
{
    let mut r = String::new();
    let mut i: usize = 0;
    while i < v.len()
        invariant
            i <= v.len(),
            r@ == v@.take(i as int),
        decreases v.len() - i,
    {
        r.push(v[i]);
        i += 1;
    }
    assert(v@.take(i as int) == v@);
    r
}


/// Whether two texts are the same.
pub fn text_eq(a: &str, b: &str) -> (r: bool)
    ensures
        r == (a@ == b@),
{
    let x = to_chars(a);
    let y = to_chars(b);
    if x.len() != y.len() {
        return false;
    }
    let mut i: usize = 0;
    while i < x.len()
        invariant
            i <= x.len(),
            x.len() == y.len(),
            x@ == a@,
            y@ == b@,
            forall|k: int| 0 <= k < i ==> x@[k] == y@[k],
        decreases x.len() - i,
    {
        if x[i] != y[i] {
            assert(a@[i as int] != b@[i as int]);
            return false;
        }
        i += 1;
    }
    assert(a@ =~= b@);
    true
}

/// The order of texts: by code point, a prefix before what extends it.
pub open spec fn text_lt(a: Seq<char>, b: Seq<char>) -> bool
    decreases a.len(),
{
    if b.len() == 0 {
        false
    } else if a.len() == 0 {
        true
    } else if a[0] == b[0] {
        text_lt(a.drop_first(), b.drop_first())
    } else {
        a[0] < b[0]
    }
}

/// Whether one text comes before another.
pub fn text_before(a: &str, b: &str) -> (r: bool)
    ensures
        r == text_lt(a@, b@),
{
    let x = to_chars(a);
    let y = to_chars(b);
    let mut i: usize = 0;
    assert(x@.skip(0) == a@);
    assert(y@.skip(0) == b@);
    while i < x.len() && i < y.len()
        invariant
            i <= x.len(),
            i <= y.len(),
            x@ == a@,
            y@ == b@,
            text_lt(a@, b@) == text_lt(x@.skip(i as int), y@.skip(i as int)),
        decreases x.len() - i,
    {
        assert(x@.skip(i as int).drop_first() == x@.skip(i + 1));
        assert(y@.skip(i as int).drop_first() == y@.skip(i + 1));
        if x[i] != y[i] {
            return x[i] < y[i];
        }
        i += 1;
    }
    i < y.len()
}

/// No text comes before itself.
pub proof fn text_lt_irreflexive(a: Seq<char>)
    ensures
        !text_lt(a, a),
    decreases a.len(),
{
    if a.len() > 0 {
        text_lt_irreflexive(a.drop_first());
    }
}

/// The order of texts carries over.
pub proof fn text_lt_transitive(a: Seq<char>, b: Seq<char>, c: Seq<char>)
    requires
        text_lt(a, b),
        text_lt(b, c),
    ensures
        text_lt(a, c),
    decreases a.len(),
{
    if a.len() > 0 && a[0] == b[0] && b[0] == c[0] {
        text_lt_transitive(a.drop_first(), b.drop_first(), c.drop_first());
    }
}

/// Of two different texts one comes first.
pub proof fn text_lt_total(a: Seq<char>, b: Seq<char>)
    ensures
        text_lt(a, b) || text_lt(b, a) || a == b,
    decreases a.len(),
{
    if a.len() > 0 && b.len() > 0 {
        if a[0] == b[0] {
            text_lt_total(a.drop_first(), b.drop_first());
            if a.drop_first() == b.drop_first() {
                assert(a =~= seq![a[0]] + a.drop_first());
                assert(b =~= seq![b[0]] + b.drop_first());
            }
        }
    } else if a.len() == 0 && b.len() == 0 {
        assert(a =~= b);
    }
}

/// The white space of Unicode.
pub open spec fn is_space(c: char) -> bool {
    let u = c as u32;
    ||| 0x09 <= u <= 0x0d
    ||| u == 0x20
    ||| u == 0x85
    ||| u == 0xa0
    ||| u == 0x1680
    ||| 0x2000 <= u <= 0x200a
    ||| u == 0x2028
    ||| u == 0x2029
    ||| u == 0x202f
    ||| u == 0x205f
    ||| u == 0x3000
}

/// Whether a character is white space.
pub fn char_is_space(c: char) -> (r: bool)
    ensures
        r == is_space(c),
{
    let u: u32 = c as u32;
    (0x09 <= u && u <= 0x0d) || u == 0x20 || u == 0x85 || u == 0xa0 || u == 0x1680 || (0x2000 <= u
        && u <= 0x200a) || u == 0x2028 || u == 0x2029 || u == 0x202f || u == 0x205f || u == 0x3000
}

/// A text without the white space in front.
pub open spec fn trim_start(s: Seq<char>) -> Seq<char>
    decreases s.len(),
{
    if s.len() > 0 && is_space(s[0]) {
        trim_start(s.drop_first())
    } else {
        s
    }
}

/// A text without the white space behind.
pub open spec fn trim_end(s: Seq<char>) -> Seq<char>
    decreases s.len(),
{
    if s.len() > 0 && is_space(s.last()) {
        trim_end(s.drop_last())
    } else {
        s
    }
}

/// A text without the white space around it.
pub open spec fn trimmed(s: Seq<char>) -> Seq<char> {
    trim_end(trim_start(s))
}

/// Drops the white space around a text.
pub fn trim(s: &[char]) -> (r: &[char])
    ensures
        r@ == trimmed(s@),
{
    let mut i: usize = 0;
    assert(s@.skip(0) == s@);
    while i < s.len() && char_is_space(s[i])
        invariant
            i <= s.len(),
            trim_start(s@) == trim_start(s@.skip(i as int)),
        decreases s.len() - i,
    {
        assert(s@.skip(i as int).drop_first() == s@.skip(i + 1));
        i += 1;
    }
    assert(trim_start(s@) == s@.skip(i as int));
    let mut j: usize = s.len();
    assert(s@.subrange(i as int, j as int) == s@.skip(i as int));
    while j > i && char_is_space(s[j - 1])
        invariant
            i <= j <= s.len(),
            trim_end(s@.skip(i as int)) == trim_end(s@.subrange(i as int, j as int)),
        decreases j,
    {
        assert(s@.subrange(i as int, j as int).drop_last() == s@.subrange(i as int, j - 1));
        j -= 1;
    }
    slice_subrange(s, i, j)
}

/// Where an item first occurs, or the length where it does not.
pub open spec fn first_index<T>(s: Seq<T>, x: T) -> int
    decreases s.len(),
{
    if s.len() == 0 {
        0
    } else if s[0] == x {
        0
    } else {
        1 + first_index(s.drop_first(), x)
    }
}

/// What `first_index` finds: the item stands there, and nowhere before.
pub proof fn first_index_properties<T>(s: Seq<T>, x: T)
    ensures
        0 <= first_index(s, x) <= s.len(),
        first_index(s, x) < s.len() ==> s[first_index(s, x)] == x,
        forall|k: int| 0 <= k < first_index(s, x) ==> s[k] != x,
    decreases s.len(),
{
    if s.len() > 0 && s[0] != x {
        first_index_properties(s.drop_first(), x);
        assert forall|k: int| 0 <= k < first_index(s, x) implies s[k] != x by {
            if k > 0 {
                assert(s[k] == s.drop_first()[k - 1]);
            }
        }
    }
}

/// The place is settled by what stands there and what does not stand before.
pub proof fn first_index_is<T>(s: Seq<T>, x: T, i: int)
    requires
        0 <= i <= s.len(),
        i < s.len() ==> s[i] == x,
        forall|k: int| 0 <= k < i ==> s[k] != x,
    ensures
        first_index(s, x) == i,
{
    first_index_properties(s, x);
    let f = first_index(s, x);
    if f < i {
        assert(s[f] != x);
    }
    if i < f {
        assert(s[i] != x);
    }
}

/// Finds a character.
pub fn find(s: &[char], x: char) -> (r: usize)
    ensures
        r == first_index(s@, x),
        r <= s.len(),
{
    let mut i: usize = 0;
    while i < s.len() && s[i] != x
        invariant
            i <= s.len(),
            forall|k: int| 0 <= k < i ==> s@[k] != x,
        decreases s.len() - i,
    {
        i += 1;
    }
    proof {
        first_index_is(s@, x, i as int);
    }
    i
}

/// Whether a text begins with another.
pub fn starts_with(s: &[char], prefix: &str) -> (r: bool)
    ensures
        r == prefix@.is_prefix_of(s@),
{
    let p = to_chars(prefix);
    if s.len() < p.len() {
        return false;
    }
    let mut i: usize = 0;
    while i < p.len()
        invariant
            i <= p.len() <= s.len(),
            p@ == prefix@,
            forall|k: int| 0 <= k < i ==> s@[k] == p@[k],
        decreases p.len() - i,
    {
        if s[i] != p[i] {
            assert(s@.subrange(0, p@.len() as int)[i as int] != p@[i as int]);
            return false;
        }
        i += 1;
    }
    assert(s@.subrange(0, p@.len() as int) =~= p@);
    true
}

/// A text after a prefix that it begins with.
pub open spec fn after_prefix(s: Seq<char>, prefix: Seq<char>) -> Option<Seq<char>> {
    if prefix.is_prefix_of(s) {
        Some(s.skip(prefix.len() as int))
    } else {
        None
    }
}

/// Takes a prefix off a text.
pub fn strip_prefix<'a>(s: &'a [char], prefix: &str) -> (r: Option<&'a [char]>)
    ensures
        r is Some <==> after_prefix(s@, prefix@) is Some,
        r is Some ==> after_prefix(s@, prefix@) == Some(r->0@),
{
    if starts_with(s, prefix) {
        let rest = slice_subrange(s, prefix.unicode_len(), s.len());
        assert(rest@ == s@.skip(prefix@.len() as int));
        Some(rest)
    } else {
        None
    }
}

/// A line without the carriage return that stood before its line feed.
pub open spec fn chop_return<T>(line: Seq<T>, cr: T) -> Seq<T> {
    if line.len() > 0 && line.last() == cr {
        line.drop_last()
    } else {
        line
    }
}

/// The lines of a sequence: each ends at a line feed, or at the end of the sequence.
/// A line feed, and a carriage return right before it, are no part of the line.
pub open spec fn split_lines<T>(s: Seq<T>, lf: T, cr: T) -> Seq<Seq<T>>
    decreases s.len(),
{
    let n = first_index(s, lf);
    if s.len() == 0 {
        Seq::empty()
    } else if n < 0 || n >= s.len() {
        seq![s]
    } else {
        seq![chop_return(s.take(n), cr)] + split_lines(s.skip(n + 1), lf, cr)
    }
}

/// The lines of a text.
pub open spec fn lines_of(s: Seq<char>) -> Seq<Seq<char>> {
    split_lines(s, '\n', '\r')
}

/// Cuts a text into its lines.
pub fn lines<'a>(s: &'a [char]) -> (r: Vec<&'a [char]>)
    ensures
        r@.map_values(|l: &[char]| l@) == lines_of(s@),
{
    let mut r: Vec<&'a [char]> = Vec::new();
    let mut start: usize = 0;
    assert(s@.skip(0) == s@);
    while start < s.len()
        invariant
            start <= s.len(),
            r@.map_values(|l: &[char]| l@) + lines_of(s@.skip(start as int)) == lines_of(s@),
        decreases s.len() - start,
    {
        let ghost rest = s@.skip(start as int);
        let tail = slice_subrange(s, start, s.len());
        assert(tail@ == rest);
        let n: usize = find(tail, '\n');
        let ghost before = r@;
        if n == tail.len() {
            r.push(tail);
            start = s.len();
            assert(lines_of(rest) == seq![rest]);
        } else {
            let mut end: usize = n;
            if end > 0 && tail[end - 1] == '\r' {
                end -= 1;
            }
            let line = slice_subrange(tail, 0, end);
            assert(line@ == chop_return(rest.take(n as int), '\r'));
            r.push(line);
            start = start + n + 1;
            assert(s@.skip(start as int) == rest.skip(n + 1));
        }
        assert(r@.map_values(|l: &[char]| l@) == before.map_values(|l: &[char]| l@).push(r@.last()@));
        assert(s@.skip(s@.len() as int) == Seq::<char>::empty());
    }
    assert(s@.skip(start as int) == Seq::<char>::empty());
    r
}


/// A decimal digit.
pub open spec fn is_digit(c: char) -> bool {
    '0' <= c <= '9'
}

/// The number that a row of decimal digits stands for.
pub open spec fn digits_value(s: Seq<char>) -> nat
    decreases s.len(),
{
    if s.len() == 0 {
        0
    } else {
        digits_value(s.drop_last()) * 10 + (s.last() as u32 - '0' as u32) as nat
    }
}

/// What a text says as a number without a sign: decimal digits, at least one, with
/// a plus in front or without, and no more than `max`.
pub open spec fn unsigned_of(s: Seq<char>, max: nat) -> Option<nat> {
    let body = if s.len() > 0 && s[0] == '+' {
        s.skip(1)
    } else {
        s
    };
    if body.len() > 0 && body.all(|c: char| is_digit(c)) && digits_value(body) <= max {
        Some(digits_value(body))
    } else {
        None
    }
}

/// What a text says as an `i32`: decimal digits, at least one, with a sign in front or
/// without, and in the range of the type.
pub open spec fn signed_of(s: Seq<char>) -> Option<int> {
    if s.len() > 0 && s[0] == '-' {
        let body = s.skip(1);
        if body.len() > 0 && body.all(|c: char| is_digit(c)) && -digits_value(body) >= i32::MIN {
            Some(-digits_value(body))
        } else {
            None
        }
    } else {
        match unsigned_of(s, i32::MAX as nat) {
            Some(n) => Some(n as int),
            None => None,
        }
    }
}

proof fn digits_value_grows(s: Seq<char>, k: int)
    requires
        0 <= k <= s.len(),
        s.all(|c: char| is_digit(c)),
    ensures
        digits_value(s) >= digits_value(s.take(k)),
    decreases s.len(),
{
    if k < s.len() {
        let f = |c: char| is_digit(c);
        assert(f(s.last()));
        assert(s.drop_last().all(f)) by {
            assert forall|i: int|
                0 <= i < s.drop_last().len() implies f(#[trigger] s.drop_last()[i]) by {
                assert(f(s[i]));
            }
        }
        digits_value_grows(s.drop_last(), k);
        assert(s.drop_last().take(k) == s.take(k));
    } else {
        assert(s.take(k) == s);
    }
}

/// Reads a row of decimal digits; `None` where it is empty, holds something else, or
/// stands for more than a `u64` can hold.
fn parse_digits(s: &[char]) -> (r: Option<u64>)
    ensures
        r is Some <==> s@.len() > 0 && s@.all(|c: char| is_digit(c)) && digits_value(s@)
            <= u64::MAX,
        r is Some ==> r->0 == digits_value(s@),
{
    let mut n: u64 = 0;
    let mut i: usize = 0;
    let ghost f = |c: char| is_digit(c);
    while i < s.len()
        invariant
            i <= s.len(),
            f == (|c: char| is_digit(c)),
            forall|k: int| 0 <= k < i ==> is_digit(#[trigger] s@[k]),
            n == digits_value(s@.take(i as int)),
        decreases s.len() - i,
    {
        let c: char = s[i];
        if !('0' <= c && c <= '9') {
            assert(!f(s@[i as int]));
            return None;
        }
        let d: u64 = (c as u32 - '0' as u32) as u64;
        let ghost next = s@.take(i + 1);
        assert(next.drop_last() == s@.take(i as int));
        assert(digits_value(next) == n * 10 + d);
        if n > (u64::MAX - d) / 10 {
            proof {
                assert(digits_value(next) > u64::MAX);
                if s@.all(f) {
                    digits_value_grows(s@, i + 1);
                }
            }
            return None;
        }
        n = n * 10 + d;
        i += 1;
    }
    assert(s@.take(i as int) == s@);
    if s.len() == 0 {
        None
    } else {
        Some(n)
    }
}

/// Reads a number without a sign.
pub fn parse_unsigned(s: &[char]) -> (r: Option<u64>)
    ensures
        r is Some <==> unsigned_of(s@, u64::MAX as nat) is Some,
        r is Some ==> unsigned_of(s@, u64::MAX as nat) == Some(r->0 as nat),
{
    if s.len() > 0 && s[0] == '+' {
        let body = slice_subrange(s, 1, s.len());
        assert(body@ == s@.skip(1));
        parse_digits(body)
    } else {
        parse_digits(s)
    }
}

/// Reads an `i32`.
pub fn parse_signed(s: &[char]) -> (r: Option<i32>)
    ensures
        r is Some <==> signed_of(s@) is Some,
        r is Some ==> signed_of(s@) == Some(r->0 as int),
{
    if s.len() > 0 && s[0] == '-' {
        let body = slice_subrange(s, 1, s.len());
        assert(body@ == s@.skip(1));
        match parse_digits(body) {
            Some(n) if n <= 0x8000_0000 => Some((-(n as i64)) as i32),
            _ => None,
        }
    } else {
        match parse_unsigned(s) {
            Some(n) if n <= 0x7fff_ffff => Some(n as i32),
            _ => None,
        }
    }
}

/// The digit for a number below ten.
pub open spec fn digit_char(d: nat) -> char {
    ('0' as u32 + d) as char
}

/// A number in decimal.
pub open spec fn decimal(n: nat) -> Seq<char>
    decreases n,
{
    if n < 10 {
        seq![digit_char(n)]
    } else {
        decimal(n / 10).push(digit_char(n % 10))
    }
}

/// An integer in decimal, with a minus where it is below zero.
pub open spec fn integer(n: int) -> Seq<char> {
    if n < 0 {
        seq!['-'] + decimal((-n) as nat)
    } else {
        decimal(n as nat)
    }
}

/// Writes a number in decimal.
pub fn write_decimal(n: u64) -> (r: String)
    ensures
        r@ == decimal(n as nat),
    decreases n,
{
    let d: u8 = (n % 10) as u8;
    let c: char = (48u8 + d) as char;
    assert(c == digit_char((n % 10) as nat));
    let mut r = if n < 10 {
        String::new()
    } else {
        write_decimal(n / 10)
    };
    r.push(c);
    r
}

/// Writes an integer in decimal.
pub fn write_integer(n: i32) -> (r: String)
    ensures
        r@ == integer(n as int),
{
    if n < 0 {
        let mut r = String::new();
        r.push('-');
        let m = write_decimal((-(n as i64)) as u64);
        r.append(m.as_str());
        r
    } else {
        write_decimal(n as u64)
    }
}

/// A number written in decimal is made of digits and reads back as itself.
pub proof fn decimal_reads_back(n: nat)
    ensures
        decimal(n).len() > 0,
        decimal(n).all(|c: char| is_digit(c)),
        digits_value(decimal(n)) == n,
        unsigned_of(decimal(n), n) == Some(n),
    decreases n,
{
    let f = |c: char| is_digit(c);
    let s = decimal(n);
    assert(forall|d: nat| d < 10 ==> is_digit(#[trigger] digit_char(d)));
    if n < 10 {
        assert(s.drop_last() == Seq::<char>::empty());
        assert(s.last() == digit_char(n));
        assert(digits_value(s.drop_last()) == 0);
    } else {
        decimal_reads_back(n / 10);
        assert(s.drop_last() == decimal(n / 10));
        assert(s.last() == digit_char(n % 10));
        assert forall|i: int| 0 <= i < s.len() implies f(#[trigger] s[i]) by {
            if i < s.len() - 1 {
                assert(f(s.drop_last()[i]));
            }
        }
    }
    assert(f(s[0]));
    assert(s[0] != '+');
}

/// An `i32` written in decimal reads back as itself.
pub proof fn integer_reads_back(n: i32)
    ensures
        signed_of(integer(n as int)) == Some(n as int),
{
    let s = integer(n as int);
    if n < 0 {
        decimal_reads_back((-n) as nat);
        assert(s.skip(1) == decimal((-n) as nat));
    } else {
        decimal_reads_back(n as nat);
        let f = |c: char| is_digit(c);
        assert(f(s[0]));
    }
}

/// A number in decimal has no white space around it.
pub proof fn integer_is_tight(n: int)
    ensures
        trimmed(integer(n)) == integer(n),
        tight(integer(n)),
{
    let s = integer(n);
    let m = if n < 0 {
        (-n) as nat
    } else {
        n as nat
    };
    decimal_reads_back(m);
    let d = decimal(m);
    let f = |c: char| is_digit(c);
    assert(f(d[0]));
    assert(f(d[d.len() - 1]));
    assert(s.last() == d.last());
}

/// A text filled up with blanks on the right, to at least a width.
pub open spec fn padded(s: Seq<char>, width: nat) -> Seq<char> {
    if s.len() >= width {
        s
    } else {
        s + Seq::new((width - s.len()) as nat, |i: int| ' ')
    }
}

/// Fills a text up with blanks on the right.
pub fn pad(s: &str, width: usize) -> (r: String)
    ensures
        r@ == padded(s@, width as nat),
{
    let mut r = s.to_owned();
    let mut n: usize = s.unicode_len();
    while n < width
        invariant
            n == r@.len(),
            s@.len() <= n,
            n <= width || n == s@.len(),
            r@ == s@ + Seq::new((n - s@.len()) as nat, |i: int| ' '),
        decreases width - n,
    {
        r.push(' ');
        n += 1;
        assert(r@ == s@ + Seq::new((n - s@.len()) as nat, |i: int| ' '));
    }
    assert(s@.len() >= width ==> r@ == s@);
    r
}

/// Texts one after another, with a separator between each two.
pub open spec fn joined(parts: Seq<Seq<char>>, sep: Seq<char>) -> Seq<char>
    decreases parts.len(),
{
    if parts.len() == 0 {
        Seq::empty()
    } else if parts.len() == 1 {
        parts[0]
    } else {
        joined(parts.drop_last(), sep) + sep + parts.last()
    }
}

/// Joins texts with a separator.
pub fn join(parts: &Vec<String>, sep: &str) -> (r: String)
    ensures
        r@ == joined(texts(parts@), sep@),
{
    let mut r = String::new();
    let mut i: usize = 0;
    while i < parts.len()
        invariant
            i <= parts.len(),
            r@ == joined(texts(parts@).take(i as int), sep@),
        decreases parts.len() - i,
    {
        let ghost all = texts(parts@);
        assert(all.take(i + 1).drop_last() == all.take(i as int));
        assert(all.take(i + 1).last() == parts@[i as int]@);
        if i > 0 {
            r.append(sep);
        } else {
            assert(all.take(1)[0] == parts@[0]@);
            assert(r@ == Seq::<char>::empty());
        }
        r.append(parts[i].as_str());
        assert(r@ == joined(all.take(i + 1), sep@));
        i += 1;
    }
    assert(texts(parts@).take(i as int) == texts(parts@));
    r
}

/// Copies a list of strings.
pub fn copy_texts(v: &Vec<String>) -> (r: Vec<String>)
    ensures
        r@ == v@,
{
    let r = v.clone();
    assert(r@ =~= v@);
    r
}

/// Whether a text stands somewhere in another.
#[verifier::opaque]
pub open spec fn occurs(part: Seq<char>, s: Seq<char>) -> bool {
    exists|i: int|
        0 <= i && i + part.len() <= s.len() && #[trigger] s.subrange(i, i + part.len()) == part
}

/// A text occurs between any others.
pub proof fn occurs_between(a: Seq<char>, part: Seq<char>, b: Seq<char>)
    ensures
        occurs(part, a + part + b),
        occurs(part, part + b),
        occurs(part, a + part),
{
    reveal(occurs);
    assert((a + part + b).subrange(a.len() as int, (a.len() + part.len()) as int) =~= part);
    assert((part + b).subrange(0, 0 + part.len() as int) =~= part);
    assert((a + part).subrange(a.len() as int, (a.len() + part.len()) as int) =~= part);
}

/// What occurs in a text occurs in what holds that text.
pub proof fn occurs_within(part: Seq<char>, s: Seq<char>, t: Seq<char>)
    requires
        occurs(part, s),
        occurs(s, t),
    ensures
        occurs(part, t),
{
    reveal(occurs);
    let i = choose|i: int|
        0 <= i && i + part.len() <= s.len() && #[trigger] s.subrange(i, i + part.len()) == part;
    let j = choose|j: int| 0 <= j && j + s.len() <= t.len() && #[trigger] t.subrange(j, j + s.len()) == s;
    assert(t.subrange(j + i, j + i + part.len()) =~= s.subrange(i, i + part.len()));
}

/// Three texts are the same together, whichever two are put together first.
pub proof fn joined_either_way(a: Seq<char>, b: Seq<char>, c: Seq<char>)
    ensures
        a + (b + c) == a + b + c,
{
    assert(a + (b + c) =~= a + b + c);
}

/// What occurs in a text occurs in it with more behind.
pub proof fn occurs_before(part: Seq<char>, s: Seq<char>, more: Seq<char>)
    requires
        occurs(part, s),
    ensures
        occurs(part, s + more),
{
    occurs_between(Seq::empty(), s, more);
    occurs_within(part, s, s + more);
}

/// Texts put behind another occur there together.
pub proof fn occurs_at_end(front: Seq<char>, a: Seq<char>, b: Seq<char>, c: Seq<char>)
    ensures
        occurs(a, front + a),
        occurs(a + b, front + a + b),
        occurs(a + b + c, front + a + b + c),
{
    occurs_between(front, a, Seq::empty());
    occurs_between(front, a + b, Seq::empty());
    occurs_between(front, a + b + c, Seq::empty());
    joined_either_way(front, a, b);
    joined_either_way(front, a + b, c);
}

/// White space alone.
pub open spec fn blank(s: Seq<char>) -> bool {
    forall|i: int| 0 <= i < s.len() ==> is_space(#[trigger] s[i])
}

/// No white space at either end.
pub open spec fn tight(s: Seq<char>) -> bool {
    s.len() > 0 ==> !is_space(s[0]) && !is_space(s.last())
}

/// Trimming takes the white space off both ends, all of it and nothing else.
pub proof fn trimming_takes_white_space_alone(a: Seq<char>, s: Seq<char>, b: Seq<char>)
    requires
        blank(a),
        blank(b),
        tight(s),
    ensures
        trimmed(a + s + b) == s,
    decreases a.len() + b.len(),
{
    let t = a + s + b;
    if a.len() > 0 {
        assert(is_space(a[0]));
        assert(t[0] == a[0]);
        assert(t.drop_first() =~= a.drop_first() + s + b);
        assert forall|i: int| 0 <= i < a.drop_first().len() implies is_space(#[trigger] a.drop_first()[i]) by {
            assert(a.drop_first()[i] == a[i + 1]);
        }
        trimming_takes_white_space_alone(a.drop_first(), s, b);
    } else if s.len() == 0 {
        assert(t =~= b);
        if b.len() > 0 {
            assert(is_space(b[0]));
            assert(t.drop_first() =~= Seq::<char>::empty() + s + b.drop_first());
            assert forall|i: int| 0 <= i < b.drop_first().len() implies is_space(#[trigger] b.drop_first()[i]) by {
                assert(b.drop_first()[i] == b[i + 1]);
            }
            trimming_takes_white_space_alone(a, s, b.drop_first());
            assert(a + s + b.drop_first() =~= t.drop_first());
        } else {
            assert(t =~= s);
        }
    } else {
        assert(t[0] == s[0]);
        assert(trim_start(t) == t);
        trim_end_takes_blank(s, b);
        assert(t =~= s + b);
    }
}

proof fn trim_end_takes_blank(s: Seq<char>, b: Seq<char>)
    requires
        blank(b),
        s.len() > 0,
        !is_space(s.last()),
    ensures
        trim_end(s + b) == s,
    decreases b.len(),
{
    if b.len() > 0 {
        assert(is_space(b[b.len() - 1]));
        assert((s + b).last() == b.last());
        assert((s + b).drop_last() =~= s + b.drop_last());
        trim_end_takes_blank(s, b.drop_last());
    } else {
        assert(s + b =~= s);
    }
}

/// A line ends at its line feed, which is no part of it, and the lines after it are those of
/// the rest.
pub proof fn line_ends_at_its_feed(line: Seq<char>, rest: Seq<char>)
    requires
        !line.contains('\n'),
    ensures
        (line.len() == 0 || line.last() != '\r') ==> lines_of(line + seq!['\n'] + rest) == seq![line] + lines_of(rest),
        lines_of(line + seq!['\r', '\n'] + rest) == seq![line] + lines_of(rest),
        line.len() > 0 ==> lines_of(line) == seq![line],
        lines_of(Seq::empty()) == Seq::<Seq<char>>::empty(),
{
    let s = line + seq!['\n'] + rest;
    let n = line.len() as int;
    assert forall|k: int| 0 <= k < n implies line[k] != '\n' by {
        assert(line.contains(line[k]));
    }
    assert(s[n] == '\n');
    first_index_is(s, '\n', n);
    assert(s.take(n) =~= line);
    assert(s.skip(n + 1) =~= rest);
    let t = line + seq!['\r', '\n'] + rest;
    assert(t[n + 1] == '\n' && t[n] == '\r');
    first_index_is(t, '\n', n + 1);
    assert(t.take(n + 1).last() == '\r');
    assert(t.take(n + 1).drop_last() =~= line);
    assert(t.skip(n + 2) =~= rest);
    first_index_is(line, '\n', n);
}

/// The order of two texts is that of the first characters in which they differ; a text comes
/// before what it begins.
pub proof fn order_goes_by_the_first_difference(
    common: Seq<char>,
    x: char,
    a: Seq<char>,
    y: char,
    b: Seq<char>,
)
    ensures
        x != y ==> text_lt(common + seq![x] + a, common + seq![y] + b) == (x < y),
        text_lt(common, common + seq![x] + a),
        !text_lt(common + seq![x] + a, common),
    decreases common.len(),
{
    let s = common + seq![x] + a;
    let t = common + seq![y] + b;
    if common.len() > 0 {
        let rest = common.drop_first();
        order_goes_by_the_first_difference(rest, x, a, y, b);
        assert(s.drop_first() =~= rest + seq![x] + a);
        assert(t.drop_first() =~= rest + seq![y] + b);
        assert(s[0] == common[0] && t[0] == common[0]);
    } else {
        assert(s[0] == x && t[0] == y);
    }
}

/// A number in decimal has no zero in front, but for zero itself.
pub proof fn decimal_has_no_zero_in_front(n: nat)
    ensures
        decimal(n)[0] == '0' <==> n == 0,
    decreases n,
{
    if n >= 10 {
        decimal_has_no_zero_in_front(n / 10);
        decimal_reads_back(n / 10);
        assert(decimal(n)[0] == decimal(n / 10)[0]);
    } else {
        assert(decimal(n)[0] == digit_char(n));
        assert(digit_char(n) as u32 == 48 + n);
    }
}

/// Zeros in front of a number, and a plus, make no difference to what it says.
pub proof fn zeros_in_front_count_nothing(zeros: Seq<char>, n: nat, max: nat)
    requires
        forall|i: int| 0 <= i < zeros.len() ==> #[trigger] zeros[i] == '0',
    ensures
        unsigned_of(zeros + decimal(n), max) == (if n <= max {
            Some(n)
        } else {
            None
        }),
        unsigned_of(seq!['+'] + zeros + decimal(n), max) == unsigned_of(zeros + decimal(n), max),
{
    let f = |c: char| is_digit(c);
    let d = decimal(n);
    let s = zeros + d;
    decimal_reads_back(n);
    zeros_value(zeros, d);
    assert forall|i: int| 0 <= i < s.len() implies f(#[trigger] s[i]) by {
        if i < zeros.len() {
            assert(s[i] == zeros[i]);
        } else {
            assert(s[i] == d[i - zeros.len()]);
            assert(f(d[i - zeros.len()]));
        }
    }
    assert(f(s[0]));
    assert(s[0] != '+');
    let t = seq!['+'] + zeros + d;
    assert(t.skip(1) =~= s);
}

proof fn zeros_value(zeros: Seq<char>, d: Seq<char>)
    requires
        forall|i: int| 0 <= i < zeros.len() ==> #[trigger] zeros[i] == '0',
    ensures
        digits_value(zeros + d) == digits_value(d),
    decreases zeros.len() + d.len(),
{
    let s = zeros + d;
    if d.len() > 0 {
        assert(s.drop_last() =~= zeros + d.drop_last());
        assert(s.last() == d.last());
        zeros_value(zeros, d.drop_last());
    } else if zeros.len() > 0 {
        assert(s =~= zeros);
        assert(zeros[zeros.len() - 1] == '0');
        let z = zeros.drop_last();
        assert forall|i: int| 0 <= i < z.len() implies #[trigger] z[i] == '0' by {
            assert(z[i] == zeros[i]);
        }
        zeros_value(z, d);
        assert(z + d =~= z);
    } else {
        assert(s =~= d);
    }
}

/// A text that is read as a number holds nothing but digits, and a sign in front.
pub proof fn numbers_are_digits(s: Seq<char>, max: nat, i: int)
    requires
        0 <= i < s.len(),
        unsigned_of(s, max) is Some || signed_of(s) is Some,
    ensures
        '0' <= s[i] <= '9' || (i == 0 && s.len() > 1 && (s[0] == '+' || s[0] == '-')),
        unsigned_of(s, max) is Some ==> s[0] != '-' && unsigned_of(s, max)->0 <= max,
        signed_of(s) is Some ==> i32::MIN <= signed_of(s)->0 <= i32::MAX,
{
    let f = |c: char| is_digit(c);
    let signed = s[0] == '+' || s[0] == '-';
    if signed && i > 0 {
        assert(s.skip(1)[i - 1] == s[i]);
        if s.skip(1).all(f) {
            assert(f(s.skip(1)[i - 1]));
        }
        if s.all(f) {
            assert(f(s[i]));
        }
    }
    if !signed {
        if s.all(f) {
            assert(f(s[i]));
        }
    }
    if s.all(f) {
        assert(f(s[0]));
    }
}

/// A padded text is the text and blanks behind it, to exactly the width where the text is no
/// longer than that.
pub proof fn padding_adds_blanks_behind(s: Seq<char>, width: nat)
    ensures
        s.is_prefix_of(padded(s, width)),
        padded(s, width).len() == (if s.len() < width {
            width
        } else {
            s.len()
        }),
        forall|i: int| s.len() <= i < padded(s, width).len() ==> #[trigger] padded(s, width)[i] == ' ',
{
    assert(padded(s, width).subrange(0, s.len() as int) =~= s);
}

/// Joined texts hold the last one at the end, behind the separator and the others joined.
pub proof fn joining_puts_the_last_behind(parts: Seq<Seq<char>>, last: Seq<char>, sep: Seq<char>)
    ensures
        parts.len() > 0 ==> joined(parts.push(last), sep) == joined(parts, sep) + sep + last,
        joined(seq![last], sep) == last,
        joined(Seq::empty(), sep) == Seq::<char>::empty(),
{
    assert(parts.push(last).drop_last() =~= parts);
}

/// Joined texts hold each of the texts.
pub proof fn joining_keeps_each_text(parts: Seq<Seq<char>>, sep: Seq<char>, i: int)
    requires
        0 <= i < parts.len(),
    ensures
        occurs(parts[i], joined(parts, sep)),
    decreases parts.len(),
{
    let last = parts.last();
    let front = parts.drop_last();
    assert(parts =~= front.push(last));
    joining_puts_the_last_behind(front, last, sep);
    if front.len() == 0 {
        assert(parts =~= seq![last]);
        occurs_between(Seq::empty(), last, Seq::empty());
        assert(Seq::<char>::empty() + last =~= last);
    } else if i == parts.len() - 1 {
        occurs_between(joined(front, sep) + sep, last, Seq::empty());
    } else {
        joining_keeps_each_text(front, sep, i);
        occurs_between(Seq::empty(), joined(front, sep), sep + last);
        assert(joined(front, sep) + (sep + last) =~= joined(front, sep) + sep + last);
        occurs_within(parts[i], joined(front, sep), joined(parts, sep));
    }
}

/// A prefix comes off exactly where it stands in front.
pub proof fn prefix_comes_off(prefix: Seq<char>, rest: Seq<char>, s: Seq<char>)
    ensures
        after_prefix(prefix + rest, prefix) == Some(rest),
        after_prefix(s, prefix) is Some ==> s == prefix + after_prefix(s, prefix)->0,
{
    assert((prefix + rest).subrange(0, prefix.len() as int) =~= prefix);
    assert((prefix + rest).skip(prefix.len() as int) =~= rest);
    if prefix.is_prefix_of(s) {
        assert(s =~= s.subrange(0, prefix.len() as int) + s.skip(prefix.len() as int));
    }
}

/// White space is tab, line feed, vertical tab, form feed, carriage return, blank, next line,
/// no-break space, ogham space, the eleven spaces of the general punctuation, line and
/// paragraph separator, narrow no-break space, mathematical space and ideographic space.
pub proof fn white_space_is_that_of_unicode(c: char)
    ensures
        is_space(c) <==> seq![
            '\t', '\n', '\u{b}', '\u{c}', '\r', ' ', '\u{85}', '\u{a0}', '\u{1680}', '\u{2000}',
            '\u{2001}', '\u{2002}', '\u{2003}', '\u{2004}', '\u{2005}', '\u{2006}', '\u{2007}',
            '\u{2008}', '\u{2009}', '\u{200a}', '\u{2028}', '\u{2029}', '\u{202f}', '\u{205f}',
            '\u{3000}',
        ].contains(c),
{
    let all = seq![
        '\t', '\n', '\u{b}', '\u{c}', '\r', ' ', '\u{85}', '\u{a0}', '\u{1680}', '\u{2000}',
        '\u{2001}', '\u{2002}', '\u{2003}', '\u{2004}', '\u{2005}', '\u{2006}', '\u{2007}',
        '\u{2008}', '\u{2009}', '\u{200a}', '\u{2028}', '\u{2029}', '\u{202f}', '\u{205f}',
        '\u{3000}',
    ];
    if is_space(c) {
        let u = c as u32;
        let i = if u <= 0x0d {
            u - 9
        } else if u == 0x20 {
            5
        } else if u == 0x85 {
            6
        } else if u == 0xa0 {
            7
        } else if u == 0x1680 {
            8
        } else if u <= 0x200a {
            u - 0x2000 + 9
        } else if u == 0x2028 {
            20
        } else if u == 0x2029 {
            21
        } else if u == 0x202f {
            22
        } else if u == 0x205f {
            23
        } else {
            24
        };
        assert(all[i] as u32 == u);
        assert(all[i] == c);
    }
}

/// A sign in front of a number turns it about where it is a minus. Zeros behind the sign make
/// no difference, and what does not fit is no number.
pub proof fn signs_and_zeros_in_front(zeros: Seq<char>, n: nat)
    requires
        forall|i: int| 0 <= i < zeros.len() ==> #[trigger] zeros[i] == '0',
    ensures
        signed_of(zeros + decimal(n)) == (if n <= i32::MAX {
            Some(n as int)
        } else {
            None
        }),
        signed_of(seq!['+'] + zeros + decimal(n)) == signed_of(zeros + decimal(n)),
        signed_of(seq!['-'] + zeros + decimal(n)) == (if -n >= i32::MIN {
            Some(-(n as int))
        } else {
            None
        }),
{
    let f = |c: char| is_digit(c);
    let d = decimal(n);
    let s = zeros + d;
    decimal_reads_back(n);
    zeros_in_front_count_nothing(zeros, n, i32::MAX as nat);
    zeros_value(zeros, d);
    assert forall|i: int| 0 <= i < s.len() implies f(#[trigger] s[i]) by {
        if i < zeros.len() {
            assert(s[i] == zeros[i]);
        } else {
            assert(s[i] == d[i - zeros.len()]);
            assert(f(d[i - zeros.len()]));
        }
    }
    assert(f(s[0]));
    let p = seq!['+'] + zeros + d;
    assert(p[0] == '+');
    let m = seq!['-'] + zeros + d;
    assert(m[0] == '-');
    assert(m.skip(1) =~= s);
}

/// The texts of strings are the text of each, in order.
pub proof fn texts_are_those_of_each(v: Seq<String>, i: int)
    ensures
        texts(v).len() == v.len(),
        0 <= i < v.len() ==> texts(v)[i] == v[i]@,
{
}

} // verus!
