//! Character sequences: comparison, order, trimming, case and decimal digits.
//!
//! A string is modelled by its view, a `Seq<char>`. Its length in bytes is the
//! length of that view's UTF-8 encoding.

use vstd::prelude::*;
use vstd::utf8::encode_utf8;

verus! {

/// The number of bytes in the UTF-8 encoding of `s`.
pub open spec fn byte_len(s: Seq<char>) -> nat {
    encode_utf8(s).len()
}

/// Each character takes at most four bytes.
pub proof fn bytes_are_bounded(s: Seq<char>)
    ensures
        byte_len(s) <= 4 * s.len(),
    decreases s.len(),
{
    if s.len() > 0 {
        bytes_are_bounded(s.drop_first());
    }
}

/// Appends one character, as `String::push` does.
pub assume_specification[ std::string::String::push ](s: &mut std::string::String, c: char)
    ensures
        final(s)@ == old(s)@.push(c),
;

/// The characters with the Unicode property `White_Space`.
pub open spec fn is_whitespace_char(c: char) -> bool {
    ||| '\u{9}' <= c <= '\u{d}'
    ||| c == ' '
    ||| c == '\u{85}'
    ||| c == '\u{a0}'
    ||| c == '\u{1680}'
    ||| '\u{2000}' <= c <= '\u{200a}'
    ||| c == '\u{2028}'
    ||| c == '\u{2029}'
    ||| c == '\u{202f}'
    ||| c == '\u{205f}'
    ||| c == '\u{3000}'
}

/// `char::is_whitespace`: whether the character has the property `White_Space`.
pub assume_specification[ char::is_whitespace ](c: char) -> (r: bool)
    ensures
        r == is_whitespace_char(c),
;

/// The lower-case text of `s`, by the Unicode rules of `str::to_lowercase`.
pub uninterp spec fn lowercase(s: Seq<char>) -> Seq<char>;

/// `str::to_lowercase` depends on the text alone.
pub assume_specification[ str::to_lowercase ](s: &str) -> (r: std::string::String)
    ensures
        r@ == lowercase(s@),
;

/// The upper-case text of `s`, by the Unicode rules of `str::to_uppercase`.
pub uninterp spec fn uppercase(s: Seq<char>) -> Seq<char>;

/// `str::to_uppercase` depends on the text alone.
pub assume_specification[ str::to_uppercase ](s: &str) -> (r: std::string::String)
    ensures
        r@ == uppercase(s@),
;

/// The text of `s` in quotes, escaped as `Debug` for `str` writes it.
pub uninterp spec fn debug_text(s: Seq<char>) -> Seq<char>;

/// The `Debug` text of a string slice of std, which depends on the slice alone.
#[verifier::external_body]
pub(crate) fn debug_string(s: &str) -> (r: String)
    ensures
        r@ == debug_text(s@),
{
    format!("{s:?}")
}

/// Two strings are the same characters exactly when they are the same bytes.
pub fn str_eq(a: &str, b: &str) -> (r: bool)
    ensures
        r == (a@ == b@),
{
    let x = a.as_bytes();
    let y = b.as_bytes();
    proof {
        vstd::utf8::encode_utf8_decode_utf8(a@);
        vstd::utf8::encode_utf8_decode_utf8(b@);
    }
    if x.len() != y.len() {
        return false;
    }
    let mut i: usize = 0;
    while i < x.len()
        invariant
            x@ == encode_utf8(a@),
            y@ == encode_utf8(b@),
            x@.len() == y@.len(),
            i <= x@.len(),
            forall|j: int| 0 <= j < i ==> x@[j] == y@[j],
        decreases x@.len() - i,
    {
        if x[i] != y[i] {
            return false;
        }
        i += 1;
    }
    proof {
        assert(x@ =~= y@);
    }
    true
}

/// The length of `s` in bytes.
pub fn str_byte_len(s: &str) -> (r: usize)
    ensures
        r == byte_len(s@),
{
    s.as_bytes().len()
}

/// The characters of `s`, one by one.
pub fn to_chars(s: &str) -> (r: Vec<char>)
    ensures
        r@ == s@,
{
    let mut out: Vec<char> = Vec::new();
    for c in it: s.chars()
        invariant
            out@ == it.seq().take(it.index() as int),
            it.seq() == s@,
    {
        proof {
            assert(it.seq().take(it.index() + 1) =~= it.seq().take(it.index() as int).push(c));
        }
        out.push(c);
    }
    proof {
        assert(out@ =~= s@);
    }
    out
}

/// The string whose characters are `chars[from..to]`.
pub fn from_chars(chars: &Vec<char>, from: usize, to: usize) -> (r: String)
    requires
        from <= to <= chars@.len(),
    ensures
        r@ == chars@.subrange(from as int, to as int),
{
    let mut out = String::new();
    let mut i: usize = from;
    while i < to
        invariant
            from <= i <= to <= chars@.len(),
            out@ == chars@.subrange(from as int, i as int),
        decreases to - i,
    {
        out.push(chars[i]);
        i += 1;
        proof {
            assert(chars@.subrange(from as int, i as int) =~= chars@.subrange(
                from as int,
                i - 1,
            ).push(chars@[i - 1]));
        }
    }
    out
}

/// Code-point order of character sequences, the order in which sorted maps of
/// strings are walked.
pub open spec fn text_lt(a: Seq<char>, b: Seq<char>) -> bool
    decreases a.len(),
{
    if b.len() == 0 {
        false
    } else if a.len() == 0 {
        true
    } else if a[0] != b[0] {
        (a[0] as int) < (b[0] as int)
    } else {
        text_lt(a.drop_first(), b.drop_first())
    }
}

/// No sequence stands before itself.
pub proof fn text_lt_irreflexive(a: Seq<char>)
    ensures
        !text_lt(a, a),
    decreases a.len(),
{
    if a.len() > 0 {
        text_lt_irreflexive(a.drop_first());
    }
}

/// Code-point order is transitive.
pub proof fn text_lt_transitive(a: Seq<char>, b: Seq<char>, c: Seq<char>)
    requires
        text_lt(a, b),
        text_lt(b, c),
    ensures
        text_lt(a, c),
    decreases a.len(),
{
    if a.len() > 0 && a[0] == b[0] && b[0] == c[0] {
        text_lt_transitive(a.drop_first(), b.drop_first(), c.drop_first());
    }
}

/// Of two different sequences one stands before the other.
pub proof fn text_lt_total(a: Seq<char>, b: Seq<char>)
    requires
        a != b,
    ensures
        text_lt(a, b) || text_lt(b, a),
    decreases a.len(),
{
    if a.len() == 0 && b.len() == 0 {
        assert(a =~= b);
    } else if a.len() > 0 && b.len() > 0 && a[0] == b[0] {
        if a.drop_first() == b.drop_first() {
            assert(a =~= seq![a[0]] + a.drop_first());
            assert(b =~= seq![b[0]] + b.drop_first());
        }
        text_lt_total(a.drop_first(), b.drop_first());
    }
}

/// Both orders cannot hold at once.
pub proof fn text_lt_asymmetric(a: Seq<char>, b: Seq<char>)
    requires
        text_lt(a, b),
    ensures
        !text_lt(b, a),
        a != b,
{
    text_lt_irreflexive(a);
    if text_lt(b, a) {
        text_lt_transitive(a, b, a);
    }
}

/// Whether `a` stands before `b` in code-point order.
pub fn str_lt(a: &str, b: &str) -> (r: bool)
    ensures
        r == text_lt(a@, b@),
{
    let x = to_chars(a);
    let y = to_chars(b);
    let mut i: usize = 0;
    proof {
        assert(x@.skip(0) =~= x@);
        assert(y@.skip(0) =~= y@);
    }
    while i < x.len() && i < y.len()
        invariant
            i <= x@.len(),
            i <= y@.len(),
            text_lt(x@, y@) == text_lt(x@.skip(i as int), y@.skip(i as int)),
            x@ == a@,
            y@ == b@,
        decreases x@.len() - i,
    {
        if x[i] != y[i] {
            return x[i] < y[i];
        }
        proof {
            assert(x@.skip(i as int).drop_first() =~= x@.skip(i + 1));
            assert(y@.skip(i as int).drop_first() =~= y@.skip(i + 1));
        }
        i += 1;
    }
    i < y.len()
}

/// The character of the decimal digit `d`.
pub open spec fn digit_char(d: nat) -> char {
    (('0' as nat) + d) as char
}

/// The decimal text of `n`, without leading zeros.
pub open spec fn decimal(n: nat) -> Seq<char>
    decreases n,
{
    if n < 10 {
        seq![digit_char(n)]
    } else {
        decimal(n / 10).push(digit_char(n % 10))
    }
}

/// The decimal text of an integer, with a minus sign where it is negative.
pub open spec fn decimal_int(n: int) -> Seq<char> {
    if n < 0 {
        seq!['-'] + decimal((-n) as nat)
    } else {
        decimal(n as nat)
    }
}

/// Appends the decimal text of `n`.
pub fn push_u64(out: &mut String, n: u64)
    ensures
        final(out)@ == old(out)@ + decimal(n as nat),
    decreases n,
{
    let d: u8 = (n % 10) as u8;
    if n >= 10 {
        push_u64(out, n / 10);
    }
    let c: char = (48u8 + d) as char;
    out.push(c);
    proof {
        assert(out@ =~= old(out)@ + decimal(n as nat));
    }
}

/// The decimal text of `n`.
pub fn u64_text(n: u64) -> (r: String)
    ensures
        r@ == decimal(n as nat),
{
    let mut out = String::new();
    push_u64(&mut out, n);
    proof {
        assert(out@ =~= decimal(n as nat));
    }
    out
}

/// The decimal text of `n`, with its sign.
pub fn i64_text(n: i64) -> (r: String)
    ensures
        r@ == decimal_int(n as int),
{
    let mut out = String::new();
    if n < 0 {
        out.push('-');
        let m: u64 = (-(n as i128)) as u64;
        push_u64(&mut out, m);
        proof {
            assert(out@ =~= decimal_int(n as int));
        }
    } else {
        push_u64(&mut out, n as u64);
        proof {
            assert(out@ =~= decimal_int(n as int));
        }
    }
    out
}

/// Whether every character is one of `0` to `9`.
pub open spec fn all_digits(s: Seq<char>) -> bool {
    forall|i: int| 0 <= i < s.len() ==> '0' as int <= #[trigger] s[i] as int <= '9' as int
}

/// The number that a sequence of digits writes.
pub open spec fn digits_value(s: Seq<char>) -> nat
    decreases s.len(),
{
    if s.len() == 0 {
        0
    } else {
        (digits_value(s.drop_last()) * 10 + (s.last() as nat - '0' as nat)) as nat
    }
}

/// The number that `s` writes: one optional plus sign and at least one digit,
/// no more than `max`.
pub open spec fn parse_decimal(s: Seq<char>, max: nat) -> Option<nat> {
    let t = if s.len() > 0 && s[0] == '+' {
        s.skip(1)
    } else {
        s
    };
    if t.len() > 0 && all_digits(t) && digits_value(t) <= max {
        Some(digits_value(t))
    } else {
        None
    }
}

proof fn digits_value_prefix(s: Seq<char>, k: int)
    requires
        all_digits(s),
        0 <= k <= s.len(),
    ensures
        digits_value(s.take(k)) <= digits_value(s),
    decreases s.len() - k,
{
    if k < s.len() {
        digits_value_prefix(s, k + 1);
        assert(s.take(k + 1).drop_last() =~= s.take(k));
        assert(s.take(k + 1).last() == s[k]);
    } else {
        assert(s.take(k) =~= s);
    }
}

/// The value of a decimal digit.
pub fn digit_value(c: char) -> (r: Option<u8>)
    ensures
        match r {
            Some(d) => d < 10 && c as int == '0' as int + d,
            None => !('0' as int <= c as int <= '9' as int),
        },
{
    match c {
        '0' => Some(0),
        '1' => Some(1),
        '2' => Some(2),
        '3' => Some(3),
        '4' => Some(4),
        '5' => Some(5),
        '6' => Some(6),
        '7' => Some(7),
        '8' => Some(8),
        '9' => Some(9),
        _ => None,
    }
}

/// Reads a decimal number of at most `max`.
pub fn parse_u64(s: &Vec<char>, max: u64) -> (r: Option<u64>)
    ensures
        match r {
            Some(n) => parse_decimal(s@, max as nat) == Some(n as nat),
            None => parse_decimal(s@, max as nat) is None,
        },
{
    let start: usize = if s.len() > 0 && s[0] == '+' {
        1
    } else {
        0
    };
    let ghost t = s@.skip(start as int);
    proof {
        assert(s@.skip(0) =~= s@);
    }
    if start >= s.len() {
        return None;
    }
    let mut i: usize = start;
    let mut n: u64 = 0;
    proof {
        assert(t.take(0) =~= Seq::<char>::empty());
    }
    while i < s.len()
        invariant
            start <= i <= s@.len(),
            start <= 1,
            start < s@.len(),
            t == s@.skip(start as int),
            t == (if s@.len() > 0 && s@[0] == '+' {
                s@.skip(1)
            } else {
                s@
            }),
            forall|j: int| 0 <= j < i - start ==> '0' as int <= #[trigger] t[j] as int <= '9' as int,
            n == digits_value(t.take(i - start)),
            n <= max,
        decreases s@.len() - i,
    {
        proof {
            assert(t[i - start] == s@[i as int]);
        }
        let d: u64 = match digit_value(s[i]) {
            Some(d) => d as u64,
            None => {
                return None;
            },
        };
        proof {
            assert(t.take(i + 1 - start).drop_last() =~= t.take(i - start));
            assert(t.take(i + 1 - start).last() == s@[i as int]);
            if all_digits(t) {
                digits_value_prefix(t, i + 1 - start);
            }
        }
        let wide: u128 = (n as u128) * 10 + (d as u128);
        if wide > max as u128 {
            return None;
        }
        n = wide as u64;
        i += 1;
    }
    proof {
        assert(t.take(t.len() as int) =~= t);
    }
    Some(n)
}

/// Reading back the decimal text of a number gives that number.
pub proof fn decimal_round_trip(n: nat, max: nat)
    requires
        n <= max,
    ensures
        parse_decimal(decimal(n), max) == Some(n),
{
    decimal_digits(n);
    assert(decimal(n)[0] != '+');
}

/// The decimal text of `n` is digits only, and writes `n`.
pub proof fn decimal_digits(n: nat)
    ensures
        decimal(n).len() > 0,
        all_digits(decimal(n)),
        digits_value(decimal(n)) == n,
    decreases n,
{
    if n < 10 {
        assert(decimal(n).drop_last() =~= Seq::<char>::empty());
        assert(decimal(n).last() == digit_char(n));
        assert(digits_value(decimal(n).drop_last()) == 0);
    } else {
        decimal_digits(n / 10);
        assert(decimal(n).drop_last() =~= decimal(n / 10));
        assert(decimal(n).last() == digit_char(n % 10));
        assert(digit_char(n % 10) as nat == '0' as nat + n % 10);
    }
}

/// Joins two strings.
pub fn concat(a: &str, b: &str) -> (r: String)
    ensures
        r@ == a@ + b@,
{
    let mut out = a.to_owned();
    out.append(b);
    out
}

/// Joins three strings.
pub fn surround(a: &str, b: &str, c: &str) -> (r: String)
    ensures
        r@ == a@ + b@ + c@,
{
    let mut out = a.to_owned();
    out.append(b);
    out.append(c);
    out
}

/// `pat` stands in `s` at position `i`.
pub open spec fn stands_at(s: Seq<char>, i: int, pat: Seq<char>) -> bool {
    0 <= i && i + pat.len() <= s.len() && s.subrange(i, i + pat.len()) == pat
}

/// Whether `pat` stands in `s` at position `i`.
pub fn matches_at(s: &Vec<char>, i: usize, pat: &str) -> (r: bool)
    requires
        i <= s@.len(),
    ensures
        r == stands_at(s@, i as int, pat@),
{
    let p = to_chars(pat);
    let n: usize = s.len();
    if p.len() > n - i {
        return false;
    }
    let mut k: usize = 0;
    while k < p.len()
        invariant
            p@ == pat@,
            n == s@.len(),
            i + p@.len() <= n,
            k <= p@.len(),
            forall|j: int| 0 <= j < k ==> s@[i + j] == p@[j],
        decreases p@.len() - k,
    {
        if s[i + k] != p[k] {
            proof {
                assert(s@.subrange(i as int, i + p@.len())[k as int] != p@[k as int]);
            }
            return false;
        }
        k += 1;
    }
    proof {
        assert(s@.subrange(i as int, i + p@.len()) =~= p@);
    }
    true
}

/// The first position from `from` on at which `pat` stands.
pub fn find_str(s: &Vec<char>, from: usize, pat: &str) -> (r: Option<usize>)
    requires
        from <= s@.len(),
    ensures
        match r {
            Some(i) => from <= i <= s@.len() && stands_at(s@, i as int, pat@) && forall|j: int|
                from <= j < i ==> !#[trigger] stands_at(s@, j, pat@),
            None => forall|j: int| from <= j ==> !#[trigger] stands_at(s@, j, pat@),
        },
{
    let mut i: usize = from;
    loop
        invariant
            from <= i <= s@.len(),
            forall|j: int| from <= j < i ==> !#[trigger] stands_at(s@, j, pat@),
        decreases s@.len() - i,
    {
        if matches_at(s, i, pat) {
            return Some(i);
        }
        if i == s.len() {
            return None;
        }
        i += 1;
    }
}

/// `c` does not occur in `s`.
pub open spec fn lacks(s: Seq<char>, c: char) -> bool {
    forall|i: int| 0 <= i < s.len() ==> #[trigger] s[i] != c
}

/// Whether `c` does not occur in `s`.
pub fn chars_lack(s: &Vec<char>, c: char) -> (r: bool)
    ensures
        r == lacks(s@, c),
{
    let mut i: usize = 0;
    while i < s.len()
        invariant
            i <= s@.len(),
            forall|j: int| 0 <= j < i ==> #[trigger] s@[j] != c,
        decreases s@.len() - i,
    {
        if s[i] == c {
            return false;
        }
        i += 1;
    }
    true
}

/// The first position from `from` on that holds `c`.
pub fn find_char(s: &Vec<char>, from: usize, c: char) -> (r: Option<usize>)
    requires
        from <= s@.len(),
    ensures
        match r {
            Some(i) => from <= i < s@.len() && s@[i as int] == c && forall|j: int|
                from <= j < i ==> #[trigger] s@[j] != c,
            None => forall|j: int| from <= j < s@.len() ==> #[trigger] s@[j] != c,
        },
{
    let mut i: usize = from;
    while i < s.len()
        invariant
            from <= i <= s@.len(),
            forall|j: int| from <= j < i ==> #[trigger] s@[j] != c,
        decreases s@.len() - i,
    {
        if s[i] == c {
            return Some(i);
        }
        i += 1;
    }
    None
}

/// The pieces of `s` between the occurrences of `c`.
pub open spec fn split(s: Seq<char>, c: char) -> Seq<Seq<char>>
    decreases s.len(),
{
    if s.len() == 0 {
        seq![Seq::<char>::empty()]
    } else {
        let head = split(s.drop_last(), c);
        if s.last() == c {
            head.push(Seq::<char>::empty())
        } else {
            head.drop_last().push(head.last().push(s.last()))
        }
    }
}

/// The pieces with `c` between them.
pub open spec fn join(parts: Seq<Seq<char>>, c: char) -> Seq<char>
    decreases parts.len(),
{
    if parts.len() == 0 {
        Seq::empty()
    } else if parts.len() == 1 {
        parts[0]
    } else {
        join(parts.drop_last(), c).push(c) + parts.last()
    }
}

/// The views of a list of strings.
pub open spec fn texts(v: Seq<String>) -> Seq<Seq<char>> {
    v.map_values(|s: String| s@)
}

/// A split has at least one piece, and no piece holds the separator.
pub proof fn split_pieces(s: Seq<char>, c: char)
    ensures
        split(s, c).len() >= 1,
        forall|i: int| 0 <= i < split(s, c).len() ==> lacks(#[trigger] split(s, c)[i], c),
    decreases s.len(),
{
    if s.len() > 0 {
        split_pieces(s.drop_last(), c);
        let head = split(s.drop_last(), c);
        assert(lacks(head.last(), c));
    }
}

proof fn split_append(s: Seq<char>, t: Seq<char>, c: char)
    requires
        lacks(t, c),
    ensures
        split(s + t, c) == split(s, c).drop_last().push(split(s, c).last() + t),
    decreases t.len(),
{
    split_pieces(s, c);
    if t.len() == 0 {
        assert(s + t =~= s);
        assert(split(s, c).last() + t =~= split(s, c).last());
        assert(split(s, c) =~= split(s, c).drop_last().push(split(s, c).last()));
    } else {
        split_append(s, t.drop_last(), c);
        assert((s + t).drop_last() =~= s + t.drop_last());
        assert((s + t).last() == t.last());
        assert(t[t.len() - 1] != c);
        let head = split(s + t.drop_last(), c);
        assert(head.drop_last() =~= split(s, c).drop_last());
        assert(head.last().push(t.last()) =~= split(s, c).last() + t);
    }
}

/// Splitting joined pieces gives the pieces back.
pub proof fn split_of_join(parts: Seq<Seq<char>>, c: char)
    requires
        parts.len() >= 1,
        forall|i: int| 0 <= i < parts.len() ==> lacks(#[trigger] parts[i], c),
    ensures
        split(join(parts, c), c) == parts,
    decreases parts.len(),
{
    let e = Seq::<char>::empty();
    if parts.len() == 1 {
        split_append(e, parts[0], c);
        assert(e + parts[0] =~= parts[0]);
        assert(split(parts[0], c) =~= parts);
    } else {
        let head = parts.drop_last();
        assert forall|i: int| 0 <= i < head.len() implies lacks(#[trigger] head[i], c) by {
            assert(head[i] == parts[i]);
        }
        split_of_join(head, c);
        let a = join(head, c).push(c);
        assert(a.drop_last() =~= join(head, c));
        assert(split(a, c) == head.push(e));
        assert(lacks(parts[parts.len() - 1], c));
        split_append(a, parts.last(), c);
        assert(e + parts.last() =~= parts.last());
        assert(split(a, c).drop_last() =~= head);
        assert(split(a, c).last() =~= e);
        assert(head.push(parts.last()) =~= parts);
    }
}

/// Joining the pieces of a split gives the whole back.
pub proof fn join_of_split(s: Seq<char>, c: char)
    ensures
        join(split(s, c), c) == s,
    decreases s.len(),
{
    if s.len() > 0 {
        join_of_split(s.drop_last(), c);
        split_pieces(s.drop_last(), c);
        let head = split(s.drop_last(), c);
        assert(s =~= s.drop_last().push(s.last()));
        if s.last() == c {
            assert(head.push(Seq::<char>::empty()).drop_last() =~= head);
            assert(join(split(s, c), c) =~= s);
        } else {
            let last = head.last().push(s.last());
            let parts = head.drop_last().push(last);
            assert(parts.drop_last() =~= head.drop_last());
            if head.len() == 1 {
                assert(join(parts, c) =~= s);
            } else {
                assert(join(parts, c) =~= s);
            }
        }
    }
}

/// Joining two lists of pieces one behind the other.
proof fn join_of_both(a: Seq<Seq<char>>, b: Seq<Seq<char>>, c: char)
    requires
        a.len() >= 1,
        b.len() >= 1,
    ensures
        join(a + b, c) == join(a, c).push(c) + join(b, c),
    decreases b.len(),
{
    let all = a + b;
    assert(all.last() == b.last());
    if b.len() == 1 {
        assert(all.drop_last() =~= a);
    } else {
        join_of_both(a, b.drop_last(), c);
        assert(all.drop_last() =~= a + b.drop_last());
        assert(join(all, c) =~= join(a, c).push(c) + join(b, c));
    }
}

/// A text is another one, or goes on behind it with a separator, exactly where
/// its pieces begin with the pieces of the other.
pub proof fn pieces_decide_prefixes(a: Seq<char>, b: Seq<char>, c: char)
    ensures
        (b == a || a.push(c).is_prefix_of(b)) <==> split(a, c).is_prefix_of(split(b, c)),
{
    let p = split(a, c);
    let q = split(b, c);
    split_pieces(a, c);
    split_pieces(b, c);
    join_of_split(a, c);
    join_of_split(b, c);
    if b == a {
        assert(p.is_prefix_of(p)) by {
            assert(p.subrange(0, p.len() as int) =~= p);
        }
    } else if a.push(c).is_prefix_of(b) {
        let rest = b.skip(a.len() as int + 1);
        let r = split(rest, c);
        split_pieces(rest, c);
        join_of_split(rest, c);
        assert(b =~= a.push(c) + rest) by {
            assert(b.subrange(0, a.len() as int + 1) == a.push(c));
            assert forall|i: int| 0 <= i < a.len() + 1 implies b[i] == a.push(c)[i] by {
                assert(b[i] == b.subrange(0, a.len() as int + 1)[i]);
            }
        }
        join_of_both(p, r, c);
        assert forall|i: int| 0 <= i < (p + r).len() implies lacks(#[trigger] (p + r)[i], c) by {
            if i < p.len() {
                assert((p + r)[i] == p[i]);
            } else {
                assert((p + r)[i] == r[i - p.len()]);
            }
        }
        split_of_join(p + r, c);
        assert(q == p + r);
        assert(q.subrange(0, p.len() as int) =~= p);
    }
    if p.is_prefix_of(q) {
        let r = q.skip(p.len() as int);
        assert(q =~= p + r) by {
            assert(q.subrange(0, p.len() as int) == p);
            assert forall|i: int| 0 <= i < p.len() implies q[i] == p[i] by {
                assert(q[i] == q.subrange(0, p.len() as int)[i]);
            }
        }
        if r.len() == 0 {
            assert(p + r =~= p);
        } else {
            join_of_both(p, r, c);
            assert(b.subrange(0, a.len() as int + 1) =~= a.push(c));
        }
    }
}

/// Texts whose pieces begin with each other are the same.
pub proof fn pieces_determine_texts(a: Seq<char>, b: Seq<char>, c: char)
    requires
        split(a, c).is_prefix_of(split(b, c)),
        split(b, c).is_prefix_of(split(a, c)),
    ensures
        a == b,
{
    let p = split(a, c);
    let q = split(b, c);
    assert(p.subrange(0, p.len() as int) =~= p);
    join_of_split(a, c);
    join_of_split(b, c);
}

/// The pieces of `s[from..to]` between the occurrences of `c`.
pub fn split_chars(s: &Vec<char>, from: usize, to: usize, c: char) -> (r: Vec<String>)
    requires
        from <= to <= s@.len(),
    ensures
        texts(r@) == split(s@.subrange(from as int, to as int), c),
{
    let mut out: Vec<String> = Vec::new();
    let mut cur = String::new();
    let mut i: usize = from;
    proof {
        assert(s@.subrange(from as int, from as int) =~= Seq::<char>::empty());
        assert(texts(out@).push(cur@) =~= seq![Seq::<char>::empty()]);
    }
    while i < to
        invariant
            from <= i <= to <= s@.len(),
            texts(out@).push(cur@) == split(s@.subrange(from as int, i as int), c),
        decreases to - i,
    {
        let ghost before = texts(out@).push(cur@);
        let ghost outv = out@;
        let ghost curv = cur@;
        proof {
            let next = s@.subrange(from as int, i + 1);
            assert(next.drop_last() =~= s@.subrange(from as int, i as int));
            assert(next.last() == s@[i as int]);
            assert(before.drop_last() =~= texts(outv));
            assert(before.last() == curv);
        }
        if s[i] == c {
            out.push(cur);
            cur = String::new();
            proof {
                assert(texts(out@) =~= before);
            }
        } else {
            cur.push(s[i]);
        }
        i += 1;
    }
    let ghost whole = texts(out@).push(cur@);
    out.push(cur);
    proof {
        assert(texts(out@) =~= whole);
    }
    out
}

/// The pieces with `c` between them.
pub fn join_strings(parts: &Vec<String>, c: char) -> (r: String)
    ensures
        r@ == join(texts(parts@), c),
{
    let mut out = String::new();
    let mut i: usize = 0;
    let ghost t = texts(parts@);
    proof {
        assert(t.take(0) =~= Seq::<Seq<char>>::empty());
    }
    while i < parts.len()
        invariant
            i <= parts@.len(),
            t == texts(parts@),
            out@ == join(t.take(i as int), c),
        decreases parts@.len() - i,
    {
        proof {
            assert(t.take(i + 1).drop_last() =~= t.take(i as int));
            assert(t.take(i + 1).last() == parts@[i as int]@);
        }
        if i > 0 {
            out.push(c);
        }
        out.append(parts[i].as_str());
        proof {
            assert(out@ =~= join(t.take(i + 1), c));
        }
        i += 1;
    }
    proof {
        assert(t.take(t.len() as int) =~= t);
    }
    out
}

/// A copy of a list of strings.
pub fn clone_strings(v: &Vec<String>) -> (r: Vec<String>)
    ensures
        texts(r@) == texts(v@),
        r@ == v@,
{
    let mut out: Vec<String> = Vec::new();
    let mut i: usize = 0;
    while i < v.len()
        invariant
            i <= v@.len(),
            out@ == v@.take(i as int),
        decreases v@.len() - i,
    {
        out.push(v[i].clone());
        proof {
            assert(v@.take(i + 1) =~= v@.take(i as int).push(v@[i as int]));
        }
        i += 1;
    }
    proof {
        assert(v@.take(v@.len() as int) =~= v@);
    }
    out
}

/// Whether `s` is one of the strings in `v`.
pub fn contains_str(v: &Vec<String>, s: &str) -> (r: bool)
    ensures
        r == texts(v@).contains(s@),
{
    let mut i: usize = 0;
    while i < v.len()
        invariant
            i <= v@.len(),
            forall|j: int| 0 <= j < i ==> texts(v@)[j] != s@,
        decreases v@.len() - i,
    {
        if str_eq(v[i].as_str(), s) {
            proof {
                assert(texts(v@)[i as int] == s@);
            }
            return true;
        }
        i += 1;
    }
    false
}

/// Strictly increasing in code-point order: the order and uniqueness of a
/// sorted set.
pub open spec fn sorted_texts(t: Seq<Seq<char>>) -> bool {
    forall|i: int, j: int|
        #![trigger t[i], t[j]]
        0 <= i < j < t.len() ==> text_lt(t[i], t[j])
}

/// Puts `s` into a sorted set of strings.
pub fn insert_sorted(v: &mut Vec<String>, s: String)
    requires
        sorted_texts(texts(old(v)@)),
    ensures
        sorted_texts(texts(final(v)@)),
        forall|t: Seq<char>| #[trigger]
            texts(final(v)@).contains(t) <==> texts(old(v)@).contains(t) || t == s@,
{
    let ghost before = v@;
    let ghost bt = texts(v@);
    let ghost sv = s@;
    let mut i: usize = 0;
    while i < v.len() && str_lt(v[i].as_str(), s.as_str())
        invariant
            i <= v@.len(),
            v@ == before,
            bt == texts(before),
            forall|j: int| 0 <= j < i ==> text_lt(#[trigger] bt[j], s@),
        decreases v@.len() - i,
    {
        i += 1;
    }
    if i < v.len() && str_eq(v[i].as_str(), s.as_str()) {
        proof {
            assert(bt[i as int] == sv);
        }
        return;
    }
    v.insert(i, s);
    proof {
        let ft = texts(v@);
        assert(ft =~= bt.insert(i as int, sv));
        assert forall|a: int, b: int|
            #![trigger ft[a], ft[b]]
            0 <= a < b < ft.len() implies text_lt(ft[a], ft[b]) by {
            if i < bt.len() {
                text_lt_total(bt[i as int], sv);
            }
            if a < i && b > i {
                assert(text_lt(bt[a], bt[b - 1]));
            } else if a == i {
                if b - 1 > i {
                    text_lt_transitive(sv, bt[i as int], bt[b - 1]);
                }
            } else if a > i {
                assert(text_lt(bt[a - 1], bt[b - 1]));
            }
        }
        assert forall|t: Seq<char>| #[trigger] ft.contains(t) <==> bt.contains(t) || t == sv by {
            if bt.contains(t) {
                let k = choose|k: int| 0 <= k < bt.len() && bt[k] == t;
                let k2 = if k < i {
                    k
                } else {
                    k + 1
                };
                assert(ft[k2] == t);
            }
            assert(ft[i as int] == sv);
            if ft.contains(t) && t != sv {
                let k = choose|k: int| 0 <= k < ft.len() && ft[k] == t;
                let k2 = if k < i {
                    k
                } else {
                    k - 1
                };
                assert(bt[k2] == t);
            }
        }
    }
}

/// Two sorted sets with the same members are the same list.
pub proof fn sorted_texts_unique(a: Seq<Seq<char>>, b: Seq<Seq<char>>)
    requires
        sorted_texts(a),
        sorted_texts(b),
        forall|t: Seq<char>| #[trigger] a.contains(t) <==> b.contains(t),
    ensures
        a == b,
    decreases a.len(),
{
    if a.len() == 0 {
        if b.len() > 0 {
            assert(b.contains(b[0]));
            assert(a.contains(b[0]));
        }
        assert(a =~= b);
    } else {
        assert(a.contains(a.last()));
        assert(b.contains(a.last()));
        assert(b.contains(b.last()));
        assert(a.contains(b.last()));
        let i = choose|i: int| 0 <= i < b.len() && b[i] == a.last();
        let j = choose|j: int| 0 <= j < a.len() && a[j] == b.last();
        if a.last() != b.last() {
            assert(text_lt(b[i], b[b.len() - 1]));
            assert(text_lt(a[j], a[a.len() - 1]));
            text_lt_asymmetric(a.last(), b.last());
        }
        let a1 = a.drop_last();
        let b1 = b.drop_last();
        assert forall|t: Seq<char>| #[trigger] a1.contains(t) <==> b1.contains(t) by {
            if a1.contains(t) {
                let k = choose|k: int| 0 <= k < a1.len() && a1[k] == t;
                assert(a[k] == t);
                assert(text_lt(a[k], a[a.len() - 1]));
                text_lt_irreflexive(t);
                assert(a.contains(t));
                assert(b.contains(t));
                let m = choose|m: int| 0 <= m < b.len() && b[m] == t;
                assert(m != b.len() - 1);
                assert(b1[m] == t);
            }
            if b1.contains(t) {
                let k = choose|k: int| 0 <= k < b1.len() && b1[k] == t;
                assert(b[k] == t);
                assert(text_lt(b[k], b[b.len() - 1]));
                text_lt_irreflexive(t);
                assert(b.contains(t));
                assert(a.contains(t));
                let m = choose|m: int| 0 <= m < a.len() && a[m] == t;
                assert(m != a.len() - 1);
                assert(a1[m] == t);
            }
        }
        assert(sorted_texts(a1)) by {
            assert forall|x: int, y: int|
                #![trigger a1[x], a1[y]]
                0 <= x < y < a1.len() implies text_lt(a1[x], a1[y]) by {
                assert(text_lt(a[x], a[y]));
            }
        }
        assert(sorted_texts(b1)) by {
            assert forall|x: int, y: int|
                #![trigger b1[x], b1[y]]
                0 <= x < y < b1.len() implies text_lt(b1[x], b1[y]) by {
                assert(text_lt(b[x], b[y]));
            }
        }
        sorted_texts_unique(a1, b1);
        assert(a =~= a1.push(a.last()));
        assert(b =~= b1.push(b.last()));
    }
}

/// Whether `c` is an ASCII letter or digit of the given kinds, or one of
/// `extra`.
pub open spec fn in_class(c: char, lower: bool, upper: bool, digit: bool, extra: Seq<char>) -> bool {
    ||| lower && 'a' as int <= c as int <= 'z' as int
    ||| upper && 'A' as int <= c as int <= 'Z' as int
    ||| digit && '0' as int <= c as int <= '9' as int
    ||| extra.contains(c)
}

/// Every character of `s` is in the class.
pub open spec fn all_in_class(
    s: Seq<char>,
    lower: bool,
    upper: bool,
    digit: bool,
    extra: Seq<char>,
) -> bool {
    forall|i: int| 0 <= i < s.len() ==> in_class(#[trigger] s[i], lower, upper, digit, extra)
}

/// Whether `c` is in the class.
pub fn char_in_class(c: char, lower: bool, upper: bool, digit: bool, extra: &str) -> (r: bool)
    ensures
        r == in_class(c, lower, upper, digit, extra@),
{
    if lower && 'a' <= c && c <= 'z' {
        return true;
    }
    if upper && 'A' <= c && c <= 'Z' {
        return true;
    }
    if digit && '0' <= c && c <= '9' {
        return true;
    }
    let e = to_chars(extra);
    !chars_lack(&e, c)
}

/// Whether every character of `s` is in the class.
pub fn chars_in_class(s: &Vec<char>, lower: bool, upper: bool, digit: bool, extra: &str) -> (r: bool)
    ensures
        r == all_in_class(s@, lower, upper, digit, extra@),
{
    let mut i: usize = 0;
    while i < s.len()
        invariant
            i <= s@.len(),
            forall|j: int|
                0 <= j < i ==> in_class(#[trigger] s@[j], lower, upper, digit, extra@),
        decreases s@.len() - i,
    {
        if !char_in_class(s[i], lower, upper, digit, extra) {
            return false;
        }
        i += 1;
    }
    true
}

/// `pat` stands somewhere in `s`.
pub open spec fn has_text(s: Seq<char>, pat: Seq<char>) -> bool {
    exists|i: int| stands_at(s, i, pat)
}

/// Whether `pat` stands somewhere in `s`.
pub fn contains_text(s: &Vec<char>, pat: &str) -> (r: bool)
    ensures
        r == has_text(s@, pat@),
{
    match find_str(s, 0, pat) {
        Some(i) => {
            proof {
                assert(stands_at(s@, i as int, pat@));
            }
            true
        },
        None => {
            proof {
                assert forall|i: int| !stands_at(s@, i, pat@) by {
                    if i >= 0 {
                    }
                }
            }
            false
        },
    }
}

/// A control character: C0, delete or C1.
pub open spec fn is_control(c: char) -> bool {
    (c as int) < 0x20 || 0x7f <= c as int <= 0x9f
}

/// No character is a control character.
pub open spec fn no_control(s: Seq<char>) -> bool {
    forall|i: int| 0 <= i < s.len() ==> !is_control(#[trigger] s[i])
}

/// Whether a string holds no control character.
pub fn lacks_control(s: &str) -> (r: bool)
    ensures
        r == no_control(s@),
{
    let c = to_chars(s);
    let mut i: usize = 0;
    while i < c.len()
        invariant
            i <= c@.len(),
            c@ == s@,
            forall|k: int| 0 <= k < i ==> !is_control(#[trigger] c@[k]),
        decreases c@.len() - i,
    {
        let x = c[i];
        if x < ' ' || ('\u{7f}' <= x && x <= '\u{9f}') {
            proof {
                assert(is_control(s@[i as int]));
            }
            return false;
        }
        i += 1;
    }
    true
}

/// The text neither starts nor ends with white space.
pub open spec fn trimmed(s: Seq<char>) -> bool {
    s.len() > 0 ==> !is_whitespace_char(s[0]) && !is_whitespace_char(s.last())
}

/// Whether a string neither starts nor ends with white space.
pub fn is_trimmed(s: &str) -> (r: bool)
    ensures
        r == trimmed(s@),
{
    let c = to_chars(s);
    let n: usize = c.len();
    n == 0 || (!c[0].is_whitespace() && !c[n - 1].is_whitespace())
}

/// Text that is not empty, of at most `max` bytes, without white space at its
/// ends and without control characters.
pub open spec fn plain_text(s: Seq<char>, max: int) -> bool {
    s.len() > 0 && byte_len(s) <= max && trimmed(s) && no_control(s)
}

/// Whether a string is plain.
pub fn is_plain_text(s: &str, max: usize) -> (r: bool)
    ensures
        r == plain_text(s@, max as int),
{
    !s.is_empty() && str_byte_len(s) <= max && is_trimmed(s) && lacks_control(s)
}

/// A name in lower-case letters, digits, dots, underscores and hyphens.
pub open spec fn lower_name(s: Seq<char>, max: int) -> bool {
    s.len() > 0 && byte_len(s) <= max && all_in_class(s, true, false, true, "._-"@)
}

/// Whether a string is a lower-case name.
pub fn is_lower_name(s: &str, max: usize) -> (r: bool)
    ensures
        r == lower_name(s@, max as int),
{
    !s.is_empty() && str_byte_len(s) <= max && chars_in_class(
        &to_chars(s),
        true,
        false,
        true,
        "._-",
    )
}

/// A name in letters, digits, dots, underscores and hyphens.
pub open spec fn mixed_name(s: Seq<char>, max: int) -> bool {
    s.len() > 0 && byte_len(s) <= max && all_in_class(s, true, true, true, "._-"@)
}

/// Whether a string is a name of either case.
pub fn is_mixed_name(s: &str, max: usize) -> (r: bool)
    ensures
        r == mixed_name(s@, max as int),
{
    !s.is_empty() && str_byte_len(s) <= max && chars_in_class(
        &to_chars(s),
        true,
        true,
        true,
        "._-",
    )
}

/// A lower-case hexadecimal digest of 64 characters.
pub open spec fn is_digest(s: Seq<char>) -> bool {
    s.len() == 64 && forall|i: int|
        0 <= i < s.len() ==> ('0' <= #[trigger] s[i] && s[i] <= '9') || ('a' <= s[i] && s[i] <= 'f')
}

/// Whether a string is a lower-case hexadecimal digest.
pub fn digest_shaped(s: &str) -> (r: bool)
    ensures
        r == is_digest(s@),
{
    let c = to_chars(s);
    if c.len() != 64 {
        return false;
    }
    let mut i: usize = 0;
    while i < c.len()
        invariant
            i <= c@.len(),
            c@ == s@,
            forall|k: int|
                0 <= k < i ==> ('0' <= #[trigger] c@[k] && c@[k] <= '9') || ('a' <= c@[k] && c@[k]
                    <= 'f'),
        decreases c@.len() - i,
    {
        let x = c[i];
        if !(('0' <= x && x <= '9') || ('a' <= x && x <= 'f')) {
            proof {
                assert(s@[i as int] == x);
            }
            return false;
        }
        i += 1;
    }
    true
}

/// The character with an ASCII capital made small.
pub open spec fn ascii_lower(c: char) -> int {
    if 'A' as int <= c as int <= 'Z' as int {
        c as int + 32
    } else {
        c as int
    }
}

/// The texts differ at most in the case of ASCII letters.
pub open spec fn ascii_alike(a: Seq<char>, b: Seq<char>) -> bool {
    a.len() == b.len() && forall|i: int|
        0 <= i < a.len() ==> ascii_lower(#[trigger] a[i]) == ascii_lower(b[i])
}

fn ascii_code(c: char) -> (r: u32)
    ensures
        r == ascii_lower(c),
{
    let n = c as u32;
    if 65 <= n && n <= 90 {
        n + 32
    } else {
        n
    }
}

/// Whether the texts differ at most in the case of ASCII letters.
pub fn eq_ignore_ascii_case(a: &str, b: &str) -> (r: bool)
    ensures
        r == ascii_alike(a@, b@),
{
    let x = to_chars(a);
    let y = to_chars(b);
    if x.len() != y.len() {
        return false;
    }
    let mut i: usize = 0;
    while i < x.len()
        invariant
            i <= x@.len(),
            x@.len() == y@.len(),
            x@ == a@,
            y@ == b@,
            forall|k: int| 0 <= k < i ==> ascii_lower(#[trigger] a@[k]) == ascii_lower(b@[k]),
        decreases x@.len() - i,
    {
        if ascii_code(x[i]) != ascii_code(y[i]) {
            proof {
                assert(ascii_lower(a@[i as int]) != ascii_lower(b@[i as int]));
            }
            return false;
        }
        i += 1;
    }
    true
}

/// Whether two lists hold the same strings in the same order.
pub fn same_strings(a: &Vec<String>, b: &Vec<String>) -> (r: bool)
    ensures
        r == (texts(a@) == texts(b@)),
{
    if a.len() != b.len() {
        proof {
            assert(texts(a@).len() != texts(b@).len());
        }
        return false;
    }
    let mut i: usize = 0;
    while i < a.len()
        invariant
            i <= a@.len(),
            a@.len() == b@.len(),
            forall|k: int| 0 <= k < i ==> (#[trigger] a@[k])@ == b@[k]@,
        decreases a@.len() - i,
    {
        if !str_eq(a[i].as_str(), b[i].as_str()) {
            proof {
                assert(texts(a@)[i as int] != texts(b@)[i as int]);
            }
            return false;
        }
        i += 1;
    }
    proof {
        assert(texts(a@) =~= texts(b@));
    }
    true
}

} // verus!
