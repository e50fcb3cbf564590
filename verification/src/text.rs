//! Text: comparison, search, numerals and ordering over strings.
//!
//! A string is modelled by its sequence of characters. Every operation here is
//! stated on that sequence.

use vstd::prelude::*;
use vstd::string::*;
use vstd::utf8::encode_utf8;

use crate::order::{law_sort_is_stable, rank_order, sorted_by, views, Ranked};

verus! {

/// `String::push` appends one character.
pub assume_specification[ std::string::String::push ](s: &mut String, c: char)
    ensures
        final(s)@ == old(s)@.push(c),
;

/// The characters of `s`, one by one.
pub fn to_chars(s: &str) -> (r: Vec<char>)
    ensures
        r@ == s@,
{
    let mut out: Vec<char> = Vec::new();
    for c in it: s.chars()
        invariant
            it.seq() == s@,
            out@ == s@.take(it.index()),
    {
        out.push(c);
    }
    out
}

/// Whether two strings hold the same characters.
pub fn same_text(a: &str, b: &str) -> (r: bool)
    ensures
        r == (a@ == b@),
{
    a.to_owned() == b.to_owned()
}

/// The length of `s` in bytes of UTF-8.
pub fn byte_len(s: &str) -> (r: usize)
    ensures
        r == encode_utf8(s@).len(),
{
    s.as_bytes().len()
}

/// Whether the list of strings `a` equals `b`, item by item.
pub fn same_texts(a: &Vec<String>, b: &Vec<String>) -> (r: bool)
    ensures
        r == (views(a@) == views(b@)),
{
    if a.len() != b.len() {
        proof {
            assert(views(a@).len() != views(b@).len());
        }
        return false;
    }
    let mut i: usize = 0;
    while i < a.len()
        invariant
            i <= a.len(),
            a.len() == b.len(),
            forall|j: int| 0 <= j < i ==> a@[j]@ == b@[j]@,
        decreases a.len() - i,
    {
        if a[i] != b[i] {
            proof {
                assert(views(a@)[i as int] != views(b@)[i as int]);
            }
            return false;
        }
        i = i + 1;
    }
    proof {
        assert(views(a@) =~= views(b@));
    }
    true
}

/// A copy of a list of strings.
pub fn copy_texts(list: &Vec<String>) -> (r: Vec<String>)
    ensures
        r@ == list@,
{
    let mut out: Vec<String> = Vec::new();
    let mut i: usize = 0;
    while i < list.len()
        invariant
            i <= list.len(),
            out@ == list@.take(i as int),
        decreases list.len() - i,
    {
        out.push(list[i].clone());
        proof {
            assert(list@.take(i + 1) == list@.take(i as int).push(list@[i as int]));
        }
        i = i + 1;
    }
    proof {
        assert(list@.take(list@.len() as int) == list@);
    }
    out
}

/// A row of texts with `separator` between them.
pub open spec fn joined(parts: Seq<Seq<char>>, separator: Seq<char>) -> Seq<char>
    decreases parts.len(),
{
    if parts.len() == 0 {
        Seq::empty()
    } else if parts.len() == 1 {
        parts[0]
    } else {
        joined(parts.drop_last(), separator) + separator + parts.last()
    }
}

/// The texts with `separator` between them.
pub fn join_texts(parts: &Vec<String>, separator: &str) -> (r: String)
    ensures
        r@ == joined(views(parts@), separator@),
{
    let ghost all = views(parts@);
    let mut out = String::new();
    let mut i: usize = 0;
    while i < parts.len()
        invariant
            i <= parts.len(),
            all == views(parts@),
            out@ == joined(all.take(i as int), separator@),
        decreases parts.len() - i,
    {
        if i > 0 {
            out.append(separator);
        }
        out.append(parts[i].as_str());
        proof {
            let longer = all.take(i + 1);
            assert(longer.drop_last() =~= all.take(i as int));
            if i == 0 {
                assert(out@ =~= all[0]);
            }
        }
        i = i + 1;
    }
    proof {
        assert(all.take(all.len() as int) =~= all);
    }
    out
}

/// `pattern` stands in `s` from position `at` on.
pub open spec fn occurs_at(s: Seq<char>, pattern: Seq<char>, at: int) -> bool {
    &&& 0 <= at <= s.len() - pattern.len()
    &&& s.subrange(at, at + pattern.len()) == pattern
}

/// `pattern` stands somewhere in `s`.
pub open spec fn occurs(s: Seq<char>, pattern: Seq<char>) -> bool {
    exists|at: int| occurs_at(s, pattern, at)
}

/// Whether `pattern` stands in `s` at position `at`.
fn stands_at(s: &Vec<char>, pattern: &Vec<char>, at: usize) -> (r: bool)
    requires
        at + pattern@.len() <= s@.len(),
    ensures
        r == occurs_at(s@, pattern@, at as int),
{
    let ghost whole: usize = s.len();
    let mut i: usize = 0;
    while i < pattern.len()
        invariant
            i <= pattern.len(),
            whole == s@.len(),
            at + pattern@.len() <= s@.len(),
            forall|j: int| 0 <= j < i ==> s@[at + j] == pattern@[j],
        decreases pattern.len() - i,
    {
        if s[at + i] != pattern[i] {
            proof {
                assert(s@.subrange(at as int, at + pattern@.len())[i as int] != pattern@[i as int]);
            }
            return false;
        }
        i = i + 1;
    }
    proof {
        assert(s@.subrange(at as int, at + pattern@.len()) =~= pattern@);
    }
    true
}

/// The first position at which `pattern` stands in `s`.
fn find(s: &Vec<char>, pattern: &Vec<char>) -> (r: Option<usize>)
    ensures
        match r {
            Some(at) => {
                &&& occurs_at(s@, pattern@, at as int)
                &&& forall|j: int| 0 <= j < at ==> !occurs_at(s@, pattern@, j)
            },
            None => !occurs(s@, pattern@),
        },
{
    if s.len() < pattern.len() {
        return None;
    }
    let last: usize = s.len() - pattern.len();
    let mut at: usize = 0;
    while at < last
        invariant
            at <= last,
            last == s@.len() - pattern@.len(),
            forall|j: int| 0 <= j < at ==> !occurs_at(s@, pattern@, j),
        decreases last - at,
    {
        if stands_at(s, pattern, at) {
            return Some(at);
        }
        at = at + 1;
    }
    if stands_at(s, pattern, at) {
        Some(at)
    } else {
        None
    }
}

/// Whether `s` starts with `prefix`.
pub fn starts_with(s: &str, prefix: &str) -> (r: bool)
    ensures
        r == prefix@.is_prefix_of(s@),
{
    let s_chars = to_chars(s);
    let p_chars = to_chars(prefix);
    if s_chars.len() < p_chars.len() {
        return false;
    }
    stands_at(&s_chars, &p_chars, 0)
}

/// Whether `pattern` stands somewhere in `s`.
pub fn contains(s: &str, pattern: &str) -> (r: bool)
    ensures
        r == occurs(s@, pattern@),
{
    match find(&to_chars(s), &to_chars(pattern)) {
        Some(at) => {
            proof {
                assert(occurs_at(s@, pattern@, at as int));
            }
            true
        },
        None => false,
    }
}

/// What stands before and behind the first `separator` in `s`.
pub open spec fn split_at_first(s: Seq<char>, separator: Seq<char>) -> Option<(Seq<char>, Seq<char>)>
{
    if occurs(s, separator) {
        let at = first_occurrence(s, separator);
        Some((s.take(at), s.skip(at + separator.len())))
    } else {
        None
    }
}

/// The first position at which `pattern` stands in `s`, where it does.
pub open spec fn first_occurrence(s: Seq<char>, pattern: Seq<char>) -> int {
    choose|at: int|
        occurs_at(s, pattern, at) && forall|j: int| 0 <= j < at ==> !occurs_at(s, pattern, j)
}

/// The first occurrence is the one before which there is none.
pub proof fn lemma_first_occurrence(s: Seq<char>, pattern: Seq<char>, at: int)
    requires
        occurs_at(s, pattern, at),
        forall|j: int| 0 <= j < at ==> !occurs_at(s, pattern, j),
    ensures
        occurs(s, pattern),
        first_occurrence(s, pattern) == at,
{
    let chosen = first_occurrence(s, pattern);
    if chosen < at {
        assert(!occurs_at(s, pattern, chosen));
    }
    if chosen > at {
        assert(!occurs_at(s, pattern, at));
    }
}

/// Splits `s` at the first `separator`.
pub fn split_once(s: &str, separator: &str) -> (r: Option<(String, String)>)
    ensures
        match r {
            Some(parts) => split_at_first(s@, separator@) == Some((parts.0@, parts.1@)),
            None => split_at_first(s@, separator@) is None,
        },
{
    let s_chars = to_chars(s);
    let p_chars = to_chars(separator);
    match find(&s_chars, &p_chars) {
        Some(at) => {
            proof {
                lemma_first_occurrence(s@, separator@, at as int);
            }
            let mut head = String::new();
            let mut i: usize = 0;
            while i < at
                invariant
                    i <= at <= s_chars@.len(),
                    head@ == s_chars@.take(i as int),
                decreases at - i,
            {
                head.push(s_chars[i]);
                proof {
                    assert(s_chars@.take(i + 1) == s_chars@.take(i as int).push(s_chars@[i as int]));
                }
                i = i + 1;
            }
            let ghost whole: usize = s_chars.len();
            let start: usize = at + p_chars.len();
            let mut tail = String::new();
            let mut k: usize = start;
            while k < s_chars.len()
                invariant
                    start <= k <= s_chars@.len(),
                    tail@ == s_chars@.subrange(start as int, k as int),
                decreases s_chars@.len() - k,
            {
                tail.push(s_chars[k]);
                proof {
                    assert(s_chars@.subrange(start as int, k + 1) == s_chars@.subrange(
                        start as int,
                        k as int,
                    ).push(s_chars@[k as int]));
                }
                k = k + 1;
            }
            proof {
                assert(s@.skip(start as int) == tail@);
            }
            Some((head, tail))
        },
        None => None,
    }
}

proof fn lemma_no_earlier_pair(first: Seq<char>, pair: Seq<char>, second: Seq<char>, j: int)
    requires
        pair.len() == 2,
        pair[0] != pair[1],
        !occurs_at(first, pair, j),
        0 <= j < first.len(),
    ensures
        !occurs_at(first + pair + second, pair, j),
{
    let whole = first + pair + second;
    if occurs_at(whole, pair, j) {
        let cut = whole.subrange(j, j + 2);
        assert(cut[0] == whole[j] && cut[1] == whole[j + 1]);
        if j + 2 <= first.len() {
            assert(first.subrange(j, j + 2) =~= cut);
        } else {
            assert(whole[j + 1] == pair[0]);
        }
    }
}

/// A text in which a separator of two different characters does not occur, the
/// separator, and any text: split at the first separator, they come apart as
/// they were.
pub proof fn law_split_undoes_join(first: Seq<char>, separator: Seq<char>, second: Seq<char>)
    requires
        separator.len() == 2,
        separator[0] != separator[1],
        !occurs(first, separator),
    ensures
        split_at_first(first + separator + second, separator) == Some((first, second)),
{
    let whole = first + separator + second;
    let at = first.len() as int;
    assert(whole.subrange(at, at + 2) =~= separator);
    assert forall|j: int| 0 <= j < at implies !occurs_at(whole, separator, j) by {
        assert(!occurs_at(first, separator, j));
        lemma_no_earlier_pair(first, separator, second, j);
    }
    lemma_first_occurrence(whole, separator, at);
    assert(whole.take(at) =~= first);
    assert(whole.skip(at + 2) =~= second);
}

// ---------------------------------------------------------------------------
// Numerals
// ---------------------------------------------------------------------------

/// The digit for `d`, below sixteen.
pub open spec fn digit(d: nat) -> char {
    if d < 10 {
        (48 + d) as char
    } else {
        (87 + d) as char
    }
}

/// The numeral of `n` in base `base`, without leading zeros.
pub open spec fn numeral(n: nat, base: nat) -> Seq<char>
    decreases n,
{
    if base < 2 || n < base {
        seq![digit(n)]
    } else {
        proof {
            assert(n / base < n) by (nonlinear_arith)
                requires
                    n >= base,
                    base >= 2,
            ;
        }
        numeral(n / base, base).push(digit(n % base))
    }
}

/// The decimal numeral of `n`.
pub open spec fn decimal(n: nat) -> Seq<char> {
    numeral(n, 10)
}

/// The decimal numeral of an integer, with a sign where it is negative.
pub open spec fn signed_decimal(n: int) -> Seq<char> {
    if n < 0 {
        seq!['-'] + decimal((-n) as nat)
    } else {
        decimal(n as nat)
    }
}

/// The hexadecimal numeral of `n` with leading zeros up to `width`.
pub open spec fn padded_hex(n: nat, width: nat) -> Seq<char> {
    let digits = numeral(n, 16);
    if digits.len() < width {
        Seq::new((width - digits.len()) as nat, |i: int| '0') + digits
    } else {
        digits
    }
}

/// The number that a digit stands for.
pub open spec fn digit_value(c: char) -> nat {
    if c <= '9' {
        (c as int - 48) as nat
    } else {
        (c as int - 87) as nat
    }
}

/// The number that a row of digits writes in base `base`.
pub open spec fn numeral_value(s: Seq<char>, base: nat) -> nat
    decreases s.len(),
{
    if s.len() == 0 {
        0
    } else {
        numeral_value(s.drop_last(), base) * base + digit_value(s.last())
    }
}

/// A numeral reads back as the number that it writes.
pub proof fn law_numeral_reads_back(n: nat, base: nat)
    requires
        2 <= base <= 16,
    ensures
        numeral_value(numeral(n, base), base) == n,
    decreases n,
{
    reveal_with_fuel(numeral_value, 2);
    if n < base {
        assert(numeral(n, base).drop_last() =~= Seq::<char>::empty());
        assert(0 * base == 0) by (nonlinear_arith);
    } else {
        assert(n / base < n && n % base < base && (n / base) * base + n % base == n)
            by (nonlinear_arith)
            requires
                n >= base,
                base >= 2,
        ;
        law_numeral_reads_back(n / base, base);
        let rest = numeral(n / base, base);
        assert(rest.push(digit(n % base)).drop_last() =~= rest);
    }
}

proof fn lemma_leading_zeros(zeros: nat, s: Seq<char>, base: nat)
    ensures
        numeral_value(Seq::new(zeros, |i: int| '0') + s, base) == numeral_value(s, base),
    decreases zeros + s.len(),
{
    let front = Seq::new(zeros, |i: int| '0');
    let whole = front + s;
    if s.len() > 0 {
        assert(whole.drop_last() =~= front + s.drop_last());
        lemma_leading_zeros(zeros, s.drop_last(), base);
    } else if zeros > 0 {
        let fewer = (zeros - 1) as nat;
        assert(whole.drop_last() =~= Seq::new(fewer, |i: int| '0') + s);
        lemma_leading_zeros(fewer, s, base);
        assert(0 * base == 0) by (nonlinear_arith);
    } else {
        assert(whole =~= s);
    }
}

/// A hexadecimal numeral with leading zeros reads back as the number that it writes, so
/// that different numbers have different numerals.
pub proof fn law_padded_hex_reads_back(n: nat, width: nat)
    ensures
        numeral_value(padded_hex(n, width), 16) == n,
{
    law_numeral_reads_back(n, 16);
    let digits = numeral(n, 16);
    if digits.len() < width {
        lemma_leading_zeros((width - digits.len()) as nat, digits, 16);
    }
}

/// The digit for `d`.
pub fn digit_char(d: u8) -> (c: char)
    requires
        d < 16,
    ensures
        c == digit(d as nat),
{
    if d < 10 {
        (48 + d) as char
    } else {
        (87 + d) as char
    }
}

fn numeral_text(n: u128, base: u128) -> (r: String)
    requires
        2 <= base <= 16,
    ensures
        r@ == numeral(n as nat, base as nat),
    decreases n,
{
    if n < base {
        let mut s = String::new();
        s.push(digit_char(n as u8));
        s
    } else {
        proof {
            assert(n / base < n) by (nonlinear_arith)
                requires
                    n >= base,
                    base >= 2,
            ;
            assert(n % base < base) by (nonlinear_arith)
                requires
                    base >= 2,
            ;
        }
        let mut s = numeral_text(n / base, base);
        s.push(digit_char((n % base) as u8));
        s
    }
}

/// The decimal numeral of `n`.
pub fn decimal_text(n: u64) -> (r: String)
    ensures
        r@ == decimal(n as nat),
{
    numeral_text(n as u128, 10)
}

/// The decimal numeral of `n`, with a sign where it is negative.
pub fn signed_decimal_text(n: i64) -> (r: String)
    ensures
        r@ == signed_decimal(n as int),
{
    if n < 0 {
        let mut s = String::new();
        s.push('-');
        let size: u128 = (-(n as i128)) as u128;
        let digits = numeral_text(size, 10);
        s.append(digits.as_str());
        s
    } else {
        numeral_text(n as u128, 10)
    }
}

/// The hexadecimal numeral of `n` with leading zeros up to `width`.
pub fn padded_hex_text(n: u128, width: usize) -> (r: String)
    ensures
        r@ == padded_hex(n as nat, width as nat),
{
    let digits = numeral_text(n, 16);
    let len: usize = digits.as_str().unicode_len();
    let mut s = String::new();
    let mut i: usize = len;
    while i < width
        invariant
            len <= i,
            i <= width || i == len,
            s@ == Seq::new((i - len) as nat, |i: int| '0'),
        decreases width - i,
    {
        s.push('0');
        proof {
            assert(Seq::new((i + 1 - len) as nat, |i: int| '0') =~= Seq::new(
                (i - len) as nat,
                |i: int| '0',
            ).push('0'));
        }
        i = i + 1;
    }
    s.append(digits.as_str());
    proof {
        if len >= width {
            assert(s@ =~= digits@);
        }
    }
    s
}

/// Every character is a decimal digit.
pub open spec fn all_digits(s: Seq<char>) -> bool {
    forall|i: int| 0 <= i < s.len() ==> '0' <= #[trigger] s[i] <= '9'
}

/// The number that a row of decimal digits writes.
pub open spec fn digits_value(s: Seq<char>) -> nat
    decreases s.len(),
{
    if s.len() == 0 {
        0
    } else {
        (digits_value(s.drop_last()) * 10 + (s.last() as int - 48)) as nat
    }
}

/// The number below 2^64 that `s` writes: decimal digits, with or without a
/// leading `+`.
pub open spec fn parsed_u64(s: Seq<char>) -> Option<u64> {
    let body = if s.len() > 0 && s[0] == '+' {
        s.skip(1)
    } else {
        s
    };
    if body.len() > 0 && all_digits(body) && digits_value(body) <= u64::MAX {
        Some(digits_value(body) as u64)
    } else {
        None
    }
}

proof fn lemma_value_grows(s: Seq<char>, i: int)
    requires
        all_digits(s),
        0 <= i <= s.len(),
    ensures
        digits_value(s.take(i)) <= digits_value(s),
    decreases s.len(),
{
    if i == s.len() {
        assert(s.take(i) == s);
    } else {
        let short = s.drop_last();
        assert('0' <= s[s.len() - 1] <= '9');
        assert(all_digits(short));
        lemma_value_grows(short, i);
        assert(short.take(i) == s.take(i));
    }
}

/// Reads a number below 2^64.
pub fn parse_u64(s: &str) -> (r: Option<u64>)
    ensures
        r == parsed_u64(s@),
{
    let chars = to_chars(s);
    let mut start: usize = 0;
    if chars.len() > 0 && chars[0] == '+' {
        start = 1;
    }
    let ghost body = s@.skip(start as int);
    proof {
        assert(start == 0 ==> body == s@);
    }
    if start == chars.len() {
        return None;
    }
    let mut value: u128 = 0;
    let mut i: usize = start;
    while i < chars.len()
        invariant
            chars@ == s@,
            start <= i <= chars.len(),
            body == s@.skip(start as int),
            start < chars.len(),
            parsed_u64(s@) == (if all_digits(body) && digits_value(body) <= u64::MAX {
                Some(digits_value(body) as u64)
            } else {
                None
            }),
            all_digits(body.take(i - start)),
            value == digits_value(body.take(i - start)),
            value <= u64::MAX,
        decreases chars.len() - i,
    {
        let c = chars[i];
        proof {
            assert(body[i - start] == c);
        }
        if c < '0' || c > '9' {
            return None;
        }
        value = value * 10 + (c as u32 - 48) as u128;
        proof {
            let longer = body.take(i + 1 - start);
            assert(longer.drop_last() == body.take(i - start));
            assert(longer.last() == c);
            if all_digits(body) {
                lemma_value_grows(body, i + 1 - start);
            }
            assert forall|j: int| 0 <= j < longer.len() implies '0' <= #[trigger] longer[j] <= '9' by {
                if j < i - start {
                    assert(longer[j] == body.take(i - start)[j]);
                }
            }
        }
        if value > u64::MAX as u128 {
            return None;
        }
        i = i + 1;
    }
    proof {
        assert(body.take(chars.len() - start) == body);
    }
    Some(value as u64)
}

// ---------------------------------------------------------------------------
// Order and blanks
// ---------------------------------------------------------------------------

/// `a` stands before `b` in a dictionary of characters, or equals it.
pub open spec fn lex_le(a: Seq<char>, b: Seq<char>) -> bool
    decreases a.len(),
{
    if a.len() == 0 {
        true
    } else if b.len() == 0 {
        false
    } else if a[0] == b[0] {
        lex_le(a.skip(1), b.skip(1))
    } else {
        a[0] < b[0]
    }
}

impl Ranked for String {
    open spec fn ranks(a: Seq<char>, b: Seq<char>) -> bool {
        lex_le(a, b)
    }

    fn at_most(&self, other: &Self) -> (r: bool) {
        let a = to_chars(self.as_str());
        let b = to_chars(other.as_str());
        let mut i: usize = 0;
        proof {
            assert(a@.skip(0) == a@);
            assert(b@.skip(0) == b@);
        }
        while i < a.len()
            invariant
                i <= a.len(),
                i <= b.len(),
                a@ == self@,
                b@ == other@,
                lex_le(self@, other@) == lex_le(a@.skip(i as int), b@.skip(i as int)),
            decreases a.len() - i,
        {
            if i >= b.len() {
                return false;
            }
            if a[i] != b[i] {
                return a[i] < b[i];
            }
            proof {
                assert(a@.skip(i as int).skip(1) == a@.skip(i + 1));
                assert(b@.skip(i as int).skip(1) == b@.skip(i + 1));
            }
            i = i + 1;
        }
        true
    }
}

/// The dictionary order places any two texts, chains, and tells apart any two
/// texts that differ.
pub proof fn law_lex_order(a: Seq<char>, b: Seq<char>, c: Seq<char>)
    ensures
        lex_le(a, b) || lex_le(b, a),
        lex_le(a, b) && lex_le(b, c) ==> lex_le(a, c),
        lex_le(a, b) && lex_le(b, a) ==> a == b,
    decreases a.len(),
{
    if a.len() > 0 && b.len() > 0 {
        let rest = if c.len() > 0 { c.skip(1) } else { c };
        law_lex_order(a.skip(1), b.skip(1), rest);
        if a.skip(1) == b.skip(1) && a[0] == b[0] {
            assert(a =~= seq![a[0]] + a.skip(1));
            assert(b =~= seq![b[0]] + b.skip(1));
        }
    }
    if a.len() == 0 && b.len() == 0 {
        assert(a =~= b);
    }
}

/// The characters that Unicode counts as white space.
pub open spec fn is_white_space(c: char) -> bool {
    ||| '\u{9}' <= c <= '\u{d}'
    ||| c == ' '
    ||| c == '\u{85}'
    ||| c == '\u{a0}'
    ||| c == '\u{1680}'
    ||| '\u{2000}' <= c <= '\u{200a}'
    ||| c == '\u{2028}'
    ||| c == '\u{2029}'
    ||| c == '\u{202f}'
    ||| c == '\u{205f}'
    ||| c == '\u{3000}'
}

/// Whether a line holds nothing but white space.
pub fn is_blank(s: &str) -> (r: bool)
    ensures
        r == (forall|i: int| 0 <= i < s@.len() ==> is_white_space(#[trigger] s@[i])),
{
    let chars = to_chars(s);
    let mut i: usize = 0;
    while i < chars.len()
        invariant
            i <= chars.len(),
            chars@ == s@,
            forall|j: int| 0 <= j < i ==> is_white_space(#[trigger] s@[j]),
        decreases chars.len() - i,
    {
        let c = chars[i];
        let white = ('\u{9}' <= c && c <= '\u{d}') || c == ' ' || c == '\u{85}' || c == '\u{a0}' || c
            == '\u{1680}' || ('\u{2000}' <= c && c <= '\u{200a}') || c == '\u{2028}' || c
            == '\u{2029}' || c == '\u{202f}' || c == '\u{205f}' || c == '\u{3000}';
        if !white {
            proof {
                assert(!is_white_space(s@[i as int]));
            }
            return false;
        }
        i = i + 1;
    }
    true
}

// ---------------------------------------------------------------------------
// Laws
// ---------------------------------------------------------------------------

/// A numeral of a number that is not zero does not start with a zero, and every digit of it
/// is below its base.
pub proof fn law_numeral_shape(n: nat, base: nat)
    requires
        2 <= base <= 16,
    ensures
        numeral(n, base).len() >= 1,
        n > 0 ==> numeral(n, base)[0] != '0',
        n == 0 ==> numeral(n, base) == seq!['0'],
        forall|i: int|
            0 <= i < numeral(n, base).len() ==> exists|d: nat|
                d < base && #[trigger] numeral(n, base)[i] == #[trigger] digit(d),
    decreases n,
{
    if n < base {
        assert(numeral(n, base) =~= seq![digit(n)]);
        assert forall|i: int| 0 <= i < numeral(n, base).len() implies exists|d: nat|
            d < base && #[trigger] numeral(n, base)[i] == #[trigger] digit(d) by {
            assert(numeral(n, base)[i] == digit(n));
        }
    } else {
        assert(n / base < n && n / base > 0) by (nonlinear_arith)
            requires
                n >= base,
                base >= 2,
        ;
        assert(n % base < base) by (nonlinear_arith)
            requires
                base >= 2,
        ;
        law_numeral_shape(n / base, base);
        let before = numeral(n / base, base);
        assert forall|i: int| 0 <= i < numeral(n, base).len() implies exists|d: nat|
            d < base && #[trigger] numeral(n, base)[i] == #[trigger] digit(d) by {
            if i < before.len() {
                assert(numeral(n, base)[i] == before[i]);
                let d = choose|d: nat| d < base && before[i] == #[trigger] digit(d);
                assert(numeral(n, base)[i] == digit(d));
            } else {
                assert(numeral(n, base)[i] == digit(n % base));
            }
        }
    }
}

proof fn lemma_decimal_value(n: nat)
    ensures
        all_digits(decimal(n)),
        decimal(n).len() > 0,
        digits_value(decimal(n)) == n,
    decreases n,
{
    if n < 10 {
        assert(decimal(n) =~= seq![digit(n)]);
        assert(decimal(n).drop_last() =~= Seq::<char>::empty());
        assert(digits_value(decimal(n).drop_last()) == 0);
    } else {
        lemma_decimal_value(n / 10);
        let before = decimal(n / 10);
        assert(decimal(n).drop_last() =~= before);
        assert(decimal(n).last() == digit(n % 10));
        assert forall|i: int| 0 <= i < decimal(n).len() implies '0' <= #[trigger] decimal(n)[i]
            <= '9' by {
            if i < before.len() {
                assert(decimal(n)[i] == before[i]);
            }
        }
    }
}

/// The decimal numeral of a number is read as that number, with a plus before it too.
pub proof fn law_decimal_is_parsed(n: u64)
    ensures
        parsed_u64(decimal(n as nat)) == Some(n),
        parsed_u64(seq!['+'] + decimal(n as nat)) == Some(n),
{
    lemma_decimal_value(n as nat);
    let signed = seq!['+'] + decimal(n as nat);
    assert(decimal(n as nat)[0] != '+');
    assert(signed.skip(1) =~= decimal(n as nat));
}

/// What is read as a number holds digits and nothing else, but for one plus at its start.
pub proof fn law_only_digits_are_parsed(s: Seq<char>, i: int)
    requires
        0 <= i < s.len(),
        !('0' <= s[i] <= '9'),
        !(i == 0 && s[i] == '+'),
    ensures
        parsed_u64(s) is None,
        parsed_u64(Seq::empty()) is None,
        parsed_u64(seq!['+']) is None,
{
    if s[0] == '+' {
        assert(s.skip(1)[i - 1] == s[i]);
    }
    assert(seq!['+'].skip(1) =~= Seq::<char>::empty());
}

/// A number is written in decimal digits, a negative one behind a minus.
pub proof fn law_signed_numeral(n: int)
    ensures
        n >= 0 ==> signed_decimal(n) == decimal(n as nat),
        n < 0 ==> signed_decimal(n).len() > 1 && signed_decimal(n)[0] == '-' && signed_decimal(
            n,
        ).skip(1) == decimal((-n) as nat),
        numeral_value(decimal(n as nat), 10) == n as nat,
{
    law_numeral_reads_back(n as nat, 10);
    if n < 0 {
        law_numeral_shape((-n) as nat, 10);
        assert(signed_decimal(n).skip(1) =~= decimal((-n) as nat));
    }
}

/// A padded numeral is as wide as it is asked to be, or as wide as its digits where those
/// are more; what is put before the digits is zeros.
pub proof fn law_padding(n: nat, width: nat)
    ensures
        ({
            let digits = numeral(n, 16);
            let padded = padded_hex(n, width);
            &&& digits.len() <= width ==> padded.len() == width
            &&& digits.len() > width ==> padded.len() == digits.len()
            &&& padded.skip(padded.len() - digits.len()) == digits
            &&& forall|i: int| 0 <= i < padded.len() - digits.len() ==> #[trigger] padded[i] == '0'
        }),
{
    let digits = numeral(n, 16);
    let padded = padded_hex(n, width);
    assert(padded.skip(padded.len() - digits.len()) =~= digits);
}

/// Texts that are joined stand one behind the other with the separator between them: two
/// rows joined are each of them joined, and the separator between.
pub proof fn law_joins_chain(a: Seq<Seq<char>>, b: Seq<Seq<char>>, separator: Seq<char>, x: Seq<char>)
    requires
        a.len() > 0,
        b.len() > 0,
    ensures
        joined(Seq::empty(), separator).len() == 0,
        joined(seq![x], separator) == x,
        joined(a + b, separator) == joined(a, separator) + separator + joined(b, separator),
    decreases b.len(),
{
    if b.len() == 1 {
        assert((a + b).drop_last() =~= a);
        assert((a + b).last() == b[0]);
    } else {
        law_joins_chain(a, b.drop_last(), separator, x);
        assert((a + b).drop_last() =~= a + b.drop_last());
        assert((a + b).last() == b.last());
        assert(joined(a + b, separator) =~= joined(a, separator) + separator + joined(b, separator));
    }
}

/// A pattern occurs in a text exactly where the text is something, the pattern, and
/// something.
pub proof fn law_occurs_between(s: Seq<char>, pattern: Seq<char>, before: Seq<char>, behind: Seq<char>)
    ensures
        s == before + pattern + behind ==> occurs(s, pattern),
        occurs(s, pattern) ==> exists|at: int|
            0 <= at <= s.len() - pattern.len() && s == #[trigger] s.take(at) + pattern + s.skip(
                at + pattern.len(),
            ),
{
    if s == before + pattern + behind {
        let at = before.len() as int;
        assert(s.subrange(at, at + pattern.len()) =~= pattern);
        assert(occurs_at(s, pattern, at));
    }
    if occurs(s, pattern) {
        let at = choose|at: int| occurs_at(s, pattern, at);
        assert(s =~= s.take(at) + s.subrange(at, at + pattern.len()) + s.skip(at + pattern.len()));
    }
}

/// A text that is split falls apart at the separator and nowhere else: the parts and the
/// separator between them are the text, and the separator does not stand further to the
/// front. A text without the separator is not split.
pub proof fn law_split_parts(s: Seq<char>, separator: Seq<char>)
    ensures
        match split_at_first(s, separator) {
            Some((first, second)) => {
                &&& s == first + separator + second
                &&& forall|j: int| 0 <= j < first.len() ==> !occurs_at(s, separator, j)
            },
            None => forall|j: int| !occurs_at(s, separator, j),
        },
{
    if occurs(s, separator) {
        let some = choose|at: int| occurs_at(s, separator, at);
        lemma_some_first(s, separator, some);
        let at = first_occurrence(s, separator);
        assert(s =~= s.take(at) + s.subrange(at, at + separator.len()) + s.skip(
            at + separator.len(),
        ));
    }
}

proof fn lemma_some_first(s: Seq<char>, pattern: Seq<char>, at: int)
    requires
        occurs_at(s, pattern, at),
    ensures
        exists|first: int|
            occurs_at(s, pattern, first) && forall|j: int|
                0 <= j < first ==> !occurs_at(s, pattern, j),
    decreases at,
{
    if exists|j: int| 0 <= j < at && occurs_at(s, pattern, j) {
        let j = choose|j: int| 0 <= j < at && occurs_at(s, pattern, j);
        lemma_some_first(s, pattern, j);
    }
}

/// In dictionary order the first place at which two texts differ decides, and a text comes
/// before its continuations.
pub proof fn law_first_difference_decides(a: Seq<char>, b: Seq<char>, i: int)
    requires
        0 <= i <= a.len(),
        i <= b.len(),
        a.take(i) == b.take(i),
    ensures
        i == a.len() ==> lex_le(a, b),
        i == a.len() && i < b.len() ==> !lex_le(b, a),
        i < a.len() && i < b.len() && a[i] < b[i] ==> lex_le(a, b) && !lex_le(b, a),
    decreases i,
{
    if i > 0 {
        assert(a.take(i)[0] == a[0] && b.take(i)[0] == b[0]);
        assert(a.skip(1).take(i - 1) =~= a.take(i).skip(1));
        assert(b.skip(1).take(i - 1) =~= b.take(i).skip(1));
        law_first_difference_decides(a.skip(1), b.skip(1), i - 1);
    }
}

/// Texts that are sorted stand in dictionary order, each as often as it came.
pub proof fn law_dictionary_order(texts: Seq<Seq<char>>)
    ensures
        ({
            let sorted = sorted_by(texts, rank_order::<String>());
            &&& sorted.to_multiset() == texts.to_multiset()
            &&& sorted.len() == texts.len()
            &&& forall|i: int, j: int|
                0 <= i < j < sorted.len() ==> lex_le(#[trigger] sorted[i], #[trigger] sorted[j])
        }),
{
    let le = rank_order::<String>();
    assert forall|a: Seq<char>, b: Seq<char>| #[trigger] le(a, b) || le(b, a) by {
        law_lex_order(a, b, b);
    }
    assert forall|a: Seq<char>, b: Seq<char>, c: Seq<char>| #[trigger]
        le(a, b) && #[trigger] le(b, c) implies le(a, c) by {
        law_lex_order(a, b, c);
    }
    law_sort_is_stable(texts, le);
    let sorted = sorted_by(texts, le);
    assert forall|i: int, j: int| 0 <= i < j < sorted.len() implies lex_le(
        #[trigger] sorted[i],
        #[trigger] sorted[j],
    ) by {
        assert(le(sorted[i], sorted[j]));
    }
}

proof fn lemma_digits_are_numeral(s: Seq<char>)
    requires
        all_digits(s),
    ensures
        digits_value(s) == numeral_value(s, 10),
    decreases s.len(),
{
    if s.len() > 0 {
        let short = s.drop_last();
        assert forall|i: int| 0 <= i < short.len() implies '0' <= #[trigger] short[i] <= '9' by {
            assert(short[i] == s[i]);
        }
        lemma_digits_are_numeral(short);
        assert('0' <= s[s.len() - 1] <= '9');
    }
}

/// A row of digits, however long and with however many leading zeros, is read as the number
/// that it writes, where 64 bits can hold that number, and else not at all.
pub proof fn law_digits_are_parsed(s: Seq<char>)
    requires
        s.len() > 0,
        forall|i: int| 0 <= i < s.len() ==> '0' <= #[trigger] s[i] <= '9',
    ensures
        numeral_value(s, 10) <= u64::MAX ==> parsed_u64(s) == Some(numeral_value(s, 10) as u64)
            && parsed_u64(seq!['+'] + s) == Some(numeral_value(s, 10) as u64),
        numeral_value(s, 10) > u64::MAX ==> parsed_u64(s) is None && parsed_u64(
            seq!['+'] + s,
        ) is None,
{
    lemma_digits_are_numeral(s);
    assert(s[0] != '+');
    assert((seq!['+'] + s).skip(1) =~= s);
}

/// Nothing above the ideographic space is white space.
pub proof fn law_white_space_ends(c: char)
    requires
        c > '\u{3000}',
    ensures
        !is_white_space(c),
{
}

} // verus!
