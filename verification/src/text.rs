//! Text operations on Unicode strings, each with an exact specification over
//! the string's characters.
use vstd::prelude::*;

verus! {

/// The Unicode `White_Space` property.
pub open spec fn is_white(c: char) -> bool {
    ||| '\u{9}' <= c <= '\u{d}'
    ||| c == '\u{20}'
    ||| c == '\u{85}'
    ||| c == '\u{a0}'
    ||| c == '\u{1680}'
    ||| '\u{2000}' <= c <= '\u{200a}'
    ||| c == '\u{2028}'
    ||| c == '\u{2029}'
    ||| c == '\u{202f}'
    ||| c == '\u{205f}'
    ||| c == '\u{3000}'
}

/// `s` without its leading characters that satisfy `drop`.
pub open spec fn without_leading(s: Seq<char>, drop: spec_fn(char) -> bool) -> Seq<char>
    decreases s.len(),
{
    if s.len() > 0 && drop(s[0]) {
        without_leading(s.drop_first(), drop)
    } else {
        s
    }
}

/// `s` without its trailing characters that satisfy `drop`.
pub open spec fn without_trailing(s: Seq<char>, drop: spec_fn(char) -> bool) -> Seq<char>
    decreases s.len(),
{
    if s.len() > 0 && drop(s.last()) {
        without_trailing(s.drop_last(), drop)
    } else {
        s
    }
}

/// `s` without surrounding white space.
pub open spec fn trimmed(s: Seq<char>) -> Seq<char> {
    without_trailing(without_leading(s, |c: char| is_white(c)), |c: char| is_white(c))
}

/// `s` without trailing slashes.
pub open spec fn unslashed(s: Seq<char>) -> Seq<char> {
    without_trailing(s, |c: char| c == '/')
}

/// `s` without repeated leading occurrences of `prefix`.
pub open spec fn without_prefixes(s: Seq<char>, prefix: Seq<char>) -> Seq<char>
    decreases s.len(),
{
    if prefix.len() > 0 && prefix.is_prefix_of(s) {
        without_prefixes(s.skip(prefix.len() as int), prefix)
    } else {
        s
    }
}

/// `part` occurs in `s` at index `at`.
pub open spec fn occurs_at(s: Seq<char>, part: Seq<char>, at: int) -> bool {
    0 <= at && at + part.len() <= s.len() && s.subrange(at, at + part.len()) == part
}

/// `part` occurs somewhere in `s`.
pub open spec fn occurs(s: Seq<char>, part: Seq<char>) -> bool {
    exists|at: int| occurs_at(s, part, at)
}

/// `at` is where the last occurrence of `part` in `s` begins.
pub open spec fn occurs_last_at(s: Seq<char>, part: Seq<char>, at: int) -> bool {
    occurs_at(s, part, at) && forall|later: int| occurs_at(s, part, later) ==> later <= at
}

/// What follows the last occurrence of `part` in `s`, if there is one.
pub open spec fn after_last(s: Seq<char>, part: Seq<char>) -> Option<Seq<char>> {
    if occurs(s, part) {
        let at = choose|at: int| occurs_last_at(s, part, at);
        Some(s.skip(at + part.len()))
    } else {
        None
    }
}

/// `c` with an ASCII capital letter made small.
pub open spec fn ascii_lower(c: char) -> char {
    if 'A' <= c <= 'Z' {
        ((c as u32 + 32) as u32) as char
    } else {
        c
    }
}

/// Equality up to the case of ASCII letters.
pub open spec fn same_ignoring_case(a: Seq<char>, b: Seq<char>) -> bool {
    a.len() == b.len() && forall|i: int|
        #![trigger a[i]]
        #![trigger b[i]]
        0 <= i < a.len() ==> ascii_lower(a[i]) == ascii_lower(b[i])
}

/// Decides the Unicode `White_Space` property.
pub fn is_whitespace(c: char) -> (r: bool)
    ensures
        r == is_white(c),
{
    ('\u{9}' <= c && c <= '\u{d}') || c == '\u{20}' || c == '\u{85}' || c == '\u{a0}' || c
        == '\u{1680}' || ('\u{2000}' <= c && c <= '\u{200a}') || c == '\u{2028}' || c == '\u{2029}'
        || c == '\u{202f}' || c == '\u{205f}' || c == '\u{3000}'
}

/// The characters of `s`.
pub fn chars_of(s: &str) -> (r: Vec<char>)
    ensures
        r@ == s@,
{
    let mut r: Vec<char> = Vec::new();
    for c in it: s.chars()
        invariant
            it.seq() == s@,
            r@ == s@.take(it.index() as int),
    {
        r.push(c);
        assert(r@ =~= s@.take(it.index() + 1));
    }
    assert(s@.take(s@.len() as int) =~= s@);
    r
}

/// Decides whether two texts are the same.
pub fn same(a: &str, b: &str) -> (r: bool)
    ensures
        r == (a@ == b@),
{
    let x = chars_of(a);
    let y = chars_of(b);
    if x.len() != y.len() {
        return false;
    }
    for i in 0..x.len()
        invariant
            x@ == a@,
            y@ == b@,
            x.len() == y.len(),
            forall|j: int| 0 <= j < i ==> x@[j] == y@[j],
    {
        if x[i] != y[i] {
            return false;
        }
    }
    assert(a@ =~= b@);
    true
}

proof fn lemma_leading_skip(s: Seq<char>, drop: spec_fn(char) -> bool, i: int)
    requires
        0 <= i < s.len(),
        drop(s[i]),
    ensures
        without_leading(s.skip(i), drop) == without_leading(s.skip(i + 1), drop),
{
    assert(s.skip(i).drop_first() =~= s.skip(i + 1));
}

proof fn lemma_trailing_take(s: Seq<char>, drop: spec_fn(char) -> bool, i: int)
    requires
        0 < i <= s.len(),
        drop(s[i - 1]),
    ensures
        without_trailing(s.take(i), drop) == without_trailing(s.take(i - 1), drop),
{
    assert(s.take(i).drop_last() =~= s.take(i - 1));
}

/// `s` without surrounding white space.
pub fn trim<'a>(s: &'a str) -> (r: &'a str)
    ensures
        r@ == trimmed(s@),
{
    let chars = chars_of(s);
    let ghost white = |c: char| is_white(c);
    let mut start: usize = 0;
    assert(s@.skip(0) =~= s@);
    while start < chars.len() && is_whitespace(chars[start])
        invariant
            chars@ == s@,
            white == (|c: char| is_white(c)),
            start <= chars.len(),
            without_leading(s@, white) == without_leading(s@.skip(start as int), white),
        decreases chars.len() - start,
    {
        proof {
            lemma_leading_skip(s@, white, start as int);
        }
        start = start + 1;
    }
    let ghost body = s@.skip(start as int);
    assert(without_leading(s@, white) == body) by {
        if start < chars.len() {
            assert(body[0] == s@[start as int]);
        }
    }
    let mut end: usize = chars.len();
    assert(body.take(body.len() as int) =~= body);
    while start < end && is_whitespace(chars[end - 1])
        invariant
            chars@ == s@,
            white == (|c: char| is_white(c)),
            start <= end <= chars.len(),
            body == s@.skip(start as int),
            without_trailing(body, white) == without_trailing(body.take(end - start), white),
        decreases end,
    {
        proof {
            assert(body[end - start - 1] == s@[end - 1]);
            lemma_trailing_take(body, white, end - start);
        }
        end = end - 1;
    }
    let r = s.substring_char(start, end);
    proof {
        assert(body.take(end - start) =~= r@);
        if start < end {
            assert(r@.last() == s@[end - 1]);
        }
    }
    r
}

/// `s` without trailing slashes.
pub fn trim_end_slashes<'a>(s: &'a str) -> (r: &'a str)
    ensures
        r@ == unslashed(s@),
{
    let chars = chars_of(s);
    let ghost slash = |c: char| c == '/';
    let mut end: usize = chars.len();
    assert(s@.take(s@.len() as int) =~= s@);
    while 0 < end && chars[end - 1] == '/'
        invariant
            chars@ == s@,
            slash == (|c: char| c == '/'),
            end <= chars.len(),
            without_trailing(s@, slash) == without_trailing(s@.take(end as int), slash),
        decreases end,
    {
        proof {
            lemma_trailing_take(s@, slash, end as int);
        }
        end = end - 1;
    }
    let r = s.substring_char(0, end);
    proof {
        assert(s@.take(end as int) =~= r@);
        if 0 < end {
            assert(r@.last() == s@[end - 1]);
        }
    }
    r
}

/// Decides whether `part` occurs in `s` at index `at`.
fn matches_at(s: &Vec<char>, part: &Vec<char>, at: usize) -> (r: bool)
    requires
        at + part.len() <= s.len(),
    ensures
        r == occurs_at(s@, part@, at as int),
{
    let mut i: usize = 0;
    while i < part.len()
        invariant
            at + part.len() <= s.len(),
            i <= part.len(),
            forall|j: int| 0 <= j < i ==> s@[at + j] == part@[j],
        decreases part.len() - i,
    {
        if s[at + i] != part[i] {
            proof {
                let cut = s@.subrange(at as int, at + part.len());
                assert(cut[i as int] == s@[at + i]);
            }
            return false;
        }
        i = i + 1;
    }
    assert(s@.subrange(at as int, at + part.len()) =~= part@);
    true
}

/// Decides whether `s` ends with `part`.
pub fn ends_with(s: &str, part: &str) -> (r: bool)
    ensures
        r == part@.is_suffix_of(s@),
{
    let x = chars_of(s);
    let y = chars_of(part);
    if y.len() > x.len() {
        return false;
    }
    matches_at(&x, &y, x.len() - y.len())
}

/// Decides whether `part` occurs in `s`.
pub fn contains(s: &str, part: &str) -> (r: bool)
    ensures
        r == occurs(s@, part@),
{
    let x = chars_of(s);
    let y = chars_of(part);
    if y.len() > x.len() {
        return false;
    }
    let last: usize = x.len() - y.len();
    let mut at: usize = 0;
    loop
        invariant
            x@ == s@,
            y@ == part@,
            last == x.len() - y.len(),
            at <= last,
            forall|i: int| 0 <= i < at ==> !occurs_at(s@, part@, i),
        decreases last - at,
    {
        if matches_at(&x, &y, at) {
            return true;
        }
        if at == last {
            return false;
        }
        at = at + 1;
    }
}

/// What follows the last occurrence of `part` in `s`, if there is one.
pub fn rest_after_last<'a>(s: &'a str, part: &str) -> (r: Option<&'a str>)
    ensures
        r is Some <==> after_last(s@, part@) is Some,
        r is Some ==> r->0@ == after_last(s@, part@)->0,
{
    let x = chars_of(s);
    let y = chars_of(part);
    if y.len() > x.len() {
        return None;
    }
    let mut at: usize = x.len() - y.len();
    loop
        invariant
            x@ == s@,
            y@ == part@,
            at + y.len() <= x.len(),
            forall|i: int| at < i ==> !occurs_at(s@, part@, i),
        decreases at,
    {
        if matches_at(&x, &y, at) {
            proof {
                assert(occurs_last_at(s@, part@, at as int));
                let found = choose|i: int| occurs_last_at(s@, part@, i);
                assert(occurs_last_at(s@, part@, found));
                assert(found == at);
            }
            let r = s.substring_char(at + y.len(), x.len());
            assert(r@ =~= s@.skip(at + part@.len()));
            return Some(r);
        }
        if at == 0 {
            return None;
        }
        at = at - 1;
    }
}

/// `s` without repeated leading occurrences of `prefix`.
pub fn trim_start_all<'a>(s: &'a str, prefix: &str) -> (r: &'a str)
    ensures
        r@ == without_prefixes(s@, prefix@),
{
    let x = chars_of(s);
    let y = chars_of(prefix);
    if y.len() == 0 {
        return s;
    }
    let mut at: usize = 0;
    assert(s@.skip(0) =~= s@);
    while y.len() <= x.len() - at && matches_at(&x, &y, at)
        invariant
            x@ == s@,
            y@ == prefix@,
            y.len() > 0,
            at <= x.len(),
            without_prefixes(s@, prefix@) == without_prefixes(s@.skip(at as int), prefix@),
        decreases x.len() - at,
    {
        proof {
            let rest = s@.skip(at as int);
            assert(rest.subrange(0, prefix@.len() as int) =~= s@.subrange(
                at as int,
                at + prefix@.len(),
            ));
            assert(prefix@.is_prefix_of(rest));
            assert(rest.skip(prefix@.len() as int) =~= s@.skip(at + prefix@.len()));
        }
        at = at + y.len();
    }
    let r = s.substring_char(at, x.len());
    proof {
        assert(r@ =~= s@.skip(at as int));
        if prefix@.is_prefix_of(r@) {
            assert(r@.subrange(0, prefix@.len() as int) =~= s@.subrange(
                at as int,
                at + prefix@.len(),
            ));
            assert(occurs_at(s@, prefix@, at as int));
        }
    }
    r
}

/// `c` with an ASCII capital letter made small.
fn lower(c: char) -> (r: char)
    ensures
        r == ascii_lower(c),
{
    if 'A' <= c && c <= 'Z' {
        (c as u8 + 32) as char
    } else {
        c
    }
}

/// Equality up to the case of ASCII letters.
pub fn eq_ignore_ascii_case(a: &str, b: &str) -> (r: bool)
    ensures
        r == same_ignoring_case(a@, b@),
{
    let x = chars_of(a);
    let y = chars_of(b);
    if x.len() != y.len() {
        return false;
    }
    for i in 0..x.len()
        invariant
            x@ == a@,
            y@ == b@,
            x.len() == y.len(),
            forall|j: int| 0 <= j < i ==> ascii_lower(a@[j]) == ascii_lower(b@[j]),
    {
        if lower(x[i]) != lower(y[i]) {
            assert(ascii_lower(a@[i as int]) != ascii_lower(b@[i as int]));
            return false;
        }
    }
    true
}

/// `a` followed by `b`.
pub fn join(a: &str, b: &str) -> (r: String)
    ensures
        r@ == a@ + b@,
{
    a.to_owned().concat(b)
}

/// `a`, `b` and `c`, one after the other.
pub fn join3(a: &str, b: &str, c: &str) -> (r: String)
    ensures
        r@ == a@ + b@ + c@,
{
    a.to_owned().concat(b).concat(c)
}

/// How many characters stand before the first line break of `s`.
pub open spec fn line_len(s: Seq<char>) -> nat
    decreases s.len(),
{
    if s.len() == 0 || s[0] == '\n' {
        0
    } else {
        1 + line_len(s.drop_first())
    }
}

/// What follows `prefix` on the first line of `s` that begins with it.
pub open spec fn line_rest(s: Seq<char>, prefix: Seq<char>) -> Option<Seq<char>>
    decreases s.len(),
{
    let line = s.take(line_len(s) as int);
    if prefix.is_prefix_of(line) {
        Some(line.skip(prefix.len() as int))
    } else if line_len(s) < s.len() {
        line_rest(s.skip(line_len(s) as int + 1), prefix)
    } else {
        None
    }
}

proof fn lemma_line_len(s: Seq<char>, n: int)
    requires
        0 <= n <= s.len(),
        forall|i: int| 0 <= i < n ==> s[i] != '\n',
        n < s.len() ==> s[n] == '\n',
    ensures
        line_len(s) == n,
    decreases s.len(),
{
    if n > 0 {
        assert forall|i: int| 0 <= i < n - 1 implies s.drop_first()[i] != '\n' by {
            assert(s.drop_first()[i] == s[i + 1]);
        }
        lemma_line_len(s.drop_first(), n - 1);
    }
}

/// What follows `prefix` on the first line of `s` that begins with it.
pub fn find_line<'a>(s: &'a str, prefix: &str) -> (r: Option<&'a str>)
    ensures
        r is Some <==> line_rest(s@, prefix@) is Some,
        r is Some ==> r->0@ == line_rest(s@, prefix@)->0,
{
    let x = chars_of(s);
    let y = chars_of(prefix);
    let mut at: usize = 0;
    assert(s@.skip(0) =~= s@);
    loop
        invariant
            x@ == s@,
            y@ == prefix@,
            at <= x.len(),
            line_rest(s@, prefix@) == line_rest(s@.skip(at as int), prefix@),
        decreases x.len() - at,
    {
        let mut end: usize = at;
        while end < x.len() && x[end] != '\n'
            invariant
                x@ == s@,
                at <= end <= x.len(),
                forall|i: int| at <= i < end ==> x@[i] != '\n',
            decreases x.len() - end,
        {
            end = end + 1;
        }
        let ghost rest = s@.skip(at as int);
        proof {
            assert forall|i: int| 0 <= i < end - at implies rest[i] != '\n' by {
                assert(rest[i] == s@[at + i]);
            }
            lemma_line_len(rest, end - at);
            assert(rest.take(end - at) =~= s@.subrange(at as int, end as int));
        }
        let ghost line = s@.subrange(at as int, end as int);
        if y.len() <= end - at && matches_at(&x, &y, at) {
            let r = s.substring_char(at + y.len(), end);
            proof {
                assert(line.subrange(0, prefix@.len() as int) =~= s@.subrange(
                    at as int,
                    at + prefix@.len(),
                ));
                assert(r@ =~= line.skip(prefix@.len() as int));
            }
            return Some(r);
        }
        proof {
            if prefix@.is_prefix_of(line) {
                assert(line.subrange(0, prefix@.len() as int) =~= s@.subrange(
                    at as int,
                    at + prefix@.len(),
                ));
                assert(occurs_at(s@, prefix@, at as int));
            }
        }
        if end == x.len() {
            return None;
        }
        assert(rest.skip(end - at + 1) =~= s@.skip(end + 1));
        at = end + 1;
    }
}

/// The decimal digit for `d`.
pub open spec fn digit(d: nat) -> char {
    (('0' as u32 + d) as u32) as char
}

/// `n` in decimal digits, without leading zeros.
pub open spec fn decimal(n: nat) -> Seq<char>
    decreases n,
{
    if n < 10 {
        seq![digit(n)]
    } else {
        decimal(n / 10).push(digit(n % 10))
    }
}

/// `n` in decimal digits, with a leading minus sign where it is negative.
pub open spec fn signed_decimal(n: int) -> Seq<char> {
    if n < 0 {
        seq!['-'] + decimal((-n) as nat)
    } else {
        decimal(n as nat)
    }
}

/// `s` is made of decimal digits.
pub open spec fn all_digits(s: Seq<char>) -> bool {
    forall|i: int| 0 <= i < s.len() ==> '0' <= #[trigger] s[i] <= '9'
}

/// The number that the digits of `s` stand for.
pub open spec fn digits_value(s: Seq<char>) -> nat
    decreases s.len(),
{
    if s.len() == 0 {
        0
    } else {
        digits_value(s.drop_last()) * 10 + (s.last() as u32 - '0' as u32) as nat
    }
}

/// `s` without one leading plus sign.
pub open spec fn without_plus(s: Seq<char>) -> Seq<char> {
    if s.len() > 0 && s[0] == '+' {
        s.drop_first()
    } else {
        s
    }
}

/// The number that `s` writes in decimal: digits, at least one of them, after
/// at most one plus sign.
pub open spec fn decimal_value(s: Seq<char>) -> Option<nat> {
    let digits = without_plus(s);
    if digits.len() > 0 && all_digits(digits) {
        Some(digits_value(digits))
    } else {
        None
    }
}

/// The text of one decimal digit.
fn digit_text(d: u64) -> (r: &'static str)
    requires
        d < 10,
    ensures
        r@ == seq![digit(d as nat)],
{
    proof {
        reveal_strlit("0");
        reveal_strlit("1");
        reveal_strlit("2");
        reveal_strlit("3");
        reveal_strlit("4");
        reveal_strlit("5");
        reveal_strlit("6");
        reveal_strlit("7");
        reveal_strlit("8");
        reveal_strlit("9");
    }
    let r = if d == 0 {
        "0"
    } else if d == 1 {
        "1"
    } else if d == 2 {
        "2"
    } else if d == 3 {
        "3"
    } else if d == 4 {
        "4"
    } else if d == 5 {
        "5"
    } else if d == 6 {
        "6"
    } else if d == 7 {
        "7"
    } else if d == 8 {
        "8"
    } else {
        "9"
    };
    assert(r@ =~= seq![digit(d as nat)]);
    r
}

/// `n` in decimal digits.
pub fn unsigned_text(n: u64) -> (r: String)
    ensures
        r@ == decimal(n as nat),
    decreases n,
{
    if n < 10 {
        digit_text(n).to_owned()
    } else {
        let head = unsigned_text(n / 10);
        let r = head.concat(digit_text(n % 10));
        assert(r@ =~= decimal(n as nat));
        r
    }
}

/// `n` in decimal digits, with a leading minus sign where it is negative.
pub fn signed_text(n: i64) -> (r: String)
    ensures
        r@ == signed_decimal(n as int),
{
    if n >= 0 {
        unsigned_text(n as u64)
    } else {
        let m: u64 = if n == i64::MIN {
            9223372036854775808
        } else {
            (-n) as u64
        };
        proof {
            reveal_strlit("-");
        }
        let r = "-".to_owned().concat(unsigned_text(m).as_str());
        assert(r@ =~= signed_decimal(n as int));
        r
    }
}

proof fn lemma_value_grows(s: Seq<char>, i: int)
    requires
        0 <= i <= s.len(),
    ensures
        digits_value(s.take(i)) <= digits_value(s),
    decreases s.len() - i,
{
    if i < s.len() {
        lemma_value_grows(s, i + 1);
        assert(s.take(i + 1).drop_last() =~= s.take(i));
    } else {
        assert(s.take(i) =~= s);
    }
}

/// Reads a decimal number: digits, at least one of them, after at most one
/// plus sign. `None` where `s` is not such a number or it does not fit.
pub fn parse_usize(s: &str) -> (r: Option<usize>)
    ensures
        r == match decimal_value(s@) {
            Some(n) => if n <= usize::MAX {
                Some(n as usize)
            } else {
                None
            },
            None => None,
        },
{
    let x = chars_of(s);
    let start: usize = if x.len() > 0 && x[0] == '+' {
        1
    } else {
        0
    };
    let ghost digits = without_plus(s@);
    assert(digits =~= s@.skip(start as int));
    if start == x.len() {
        return None;
    }
    let mut i: usize = start;
    let mut value: usize = 0;
    let mut fits: bool = true;
    assert(digits.take(0) =~= Seq::<char>::empty());
    while i < x.len()
        invariant
            x@ == s@,
            digits == without_plus(s@),
            digits == s@.skip(start as int),
            start <= i <= x.len(),
            all_digits(digits.take(i - start)),
            fits ==> value == digits_value(digits.take(i - start)),
            !fits ==> digits_value(digits) > usize::MAX,
        decreases x.len() - i,
    {
        let c = x[i];
        assert(c == digits[i - start]);
        if c < '0' || c > '9' {
            return None;
        }
        let d: usize = (c as u8 - 48) as usize;
        proof {
            let longer = digits.take(i - start + 1);
            assert(longer.drop_last() =~= digits.take(i - start));
            assert(longer.last() == c);
            assert forall|j: int| 0 <= j < longer.len() implies '0' <= #[trigger] longer[j]
                <= '9' by {
                if j < i - start {
                    assert(longer[j] == digits.take(i - start)[j]);
                }
            }
            lemma_value_grows(digits, i - start + 1);
        }
        if fits {
            match value.checked_mul(10) {
                Some(tens) => {
                    match tens.checked_add(d) {
                        Some(sum) => {
                            value = sum;
                        },
                        None => {
                            fits = false;
                        },
                    }
                },
                None => {
                    fits = false;
                },
            }
        }
        i = i + 1;
    }
    assert(digits.take(x.len() - start) =~= digits);
    if fits {
        Some(value)
    } else {
        None
    }
}

proof fn lemma_decimal_digits(n: nat)
    ensures
        decimal(n).len() > 0,
        all_digits(decimal(n)),
        digits_value(decimal(n)) == n,
    decreases n,
{
    reveal_with_fuel(digits_value, 2);
    if n < 10 {
        assert(decimal(n).drop_last() =~= Seq::<char>::empty());
        assert(decimal(n).last() == digit(n));
    } else {
        lemma_decimal_digits(n / 10);
        assert(decimal(n).drop_last() =~= decimal(n / 10));
        assert(decimal(n).last() == digit(n % 10));
        assert forall|i: int| 0 <= i < decimal(n).len() implies '0' <= #[trigger] decimal(n)[i]
            <= '9' by {
            if i < decimal(n / 10).len() {
                assert(decimal(n)[i] == decimal(n / 10)[i]);
            }
        }
    }
}

/// A number written in decimal reads back as itself.
pub proof fn law_decimal_reads_back(n: nat)
    ensures
        decimal_value(decimal(n)) == Some(n),
{
    lemma_decimal_digits(n);
    assert(decimal(n)[0] != '+');
}

/// What is left of `s` is an end of it that does not begin with a dropped
/// character.
proof fn lemma_without_leading(s: Seq<char>, drop: spec_fn(char) -> bool)
    ensures
        without_leading(s, drop).is_suffix_of(s),
        without_leading(s, drop).len() > 0 ==> !drop(without_leading(s, drop)[0]),
    decreases s.len(),
{
    if s.len() > 0 && drop(s[0]) {
        lemma_without_leading(s.drop_first(), drop);
    }
}

/// What is left of `s` is a beginning of it that does not end with a dropped
/// character.
pub proof fn lemma_without_trailing(s: Seq<char>, drop: spec_fn(char) -> bool)
    ensures
        without_trailing(s, drop).is_prefix_of(s),
        without_trailing(s, drop).len() > 0 ==> !drop(without_trailing(s, drop).last()),
    decreases s.len(),
{
    if s.len() > 0 && drop(s.last()) {
        lemma_without_trailing(s.drop_last(), drop);
    }
}

/// A trimmed text has no white space at either end.
pub proof fn law_trimmed_ends(s: Seq<char>)
    ensures
        trimmed(s).len() > 0 ==> !is_white(trimmed(s)[0]) && !is_white(trimmed(s).last()),
{
    let white = |c: char| is_white(c);
    let t = without_leading(s, white);
    lemma_without_leading(s, white);
    lemma_without_trailing(t, white);
    if trimmed(s).len() > 0 {
        assert(trimmed(s)[0] == t[0]);
        assert(!white(t[0]));
        assert(!white(trimmed(s).last()));
    }
}

/// A text without white space at either end is left as it is.
pub proof fn law_trimmed_fixed(s: Seq<char>)
    requires
        s.len() > 0 ==> !is_white(s[0]) && !is_white(s.last()),
    ensures
        trimmed(s) == s,
{
}

/// Trimming twice is trimming once.
pub proof fn law_trimmed_idempotent(s: Seq<char>)
    ensures
        trimmed(trimmed(s)) == trimmed(s),
{
    law_trimmed_ends(s);
    law_trimmed_fixed(trimmed(s));
}

/// Trimming cuts white space off both ends and nothing else.
pub proof fn law_trimming_cuts_white_space(s: Seq<char>)
    ensures
        exists|a: int, b: int|
            #![trigger s.subrange(a, b)]
            0 <= a <= b <= s.len() && trimmed(s) == s.subrange(a, b) && (forall|i: int|
                0 <= i < a ==> is_white(#[trigger] s[i])) && (forall|i: int|
                b <= i < s.len() ==> is_white(#[trigger] s[i])),
{
    let white = |c: char| is_white(c);
    let t = without_leading(s, white);
    lemma_leading_dropped(s, white);
    lemma_trailing_dropped(t, white);
    let a = s.len() - t.len();
    let b = a + trimmed(s).len();
    assert(trimmed(s) =~= s.subrange(a, b));
    assert forall|i: int| 0 <= i < a implies is_white(#[trigger] s[i]) by {
        assert(white(s[i]));
    }
    assert forall|i: int| b <= i < s.len() implies is_white(#[trigger] s[i]) by {
        assert(t[i - a] == s[i]);
        assert(white(t[i - a]));
    }
}

proof fn lemma_leading_dropped(s: Seq<char>, drop: spec_fn(char) -> bool)
    ensures
        without_leading(s, drop).len() <= s.len(),
        without_leading(s, drop) == s.skip(s.len() - without_leading(s, drop).len()),
        forall|i: int|
            0 <= i < s.len() - without_leading(s, drop).len() ==> drop(#[trigger] s[i]),
    decreases s.len(),
{
    if s.len() > 0 && drop(s[0]) {
        let rest = s.drop_first();
        lemma_leading_dropped(rest, drop);
        let n = without_leading(s, drop).len() as int;
        assert(rest.skip(rest.len() - n) =~= s.skip(s.len() - n));
        assert forall|i: int| 0 <= i < s.len() - n implies drop(#[trigger] s[i]) by {
            if i > 0 {
                assert(rest[i - 1] == s[i]);
            }
        }
    } else {
        assert(s.skip(0) =~= s);
    }
}

proof fn lemma_trailing_dropped(s: Seq<char>, drop: spec_fn(char) -> bool)
    ensures
        without_trailing(s, drop).len() <= s.len(),
        without_trailing(s, drop) == s.take(without_trailing(s, drop).len() as int),
        forall|i: int| without_trailing(s, drop).len() <= i < s.len() ==> drop(#[trigger] s[i]),
    decreases s.len(),
{
    if s.len() > 0 && drop(s.last()) {
        let rest = s.drop_last();
        lemma_trailing_dropped(rest, drop);
        let n = without_trailing(s, drop).len() as int;
        assert(rest.take(n) =~= s.take(n));
        assert forall|i: int| n <= i < s.len() implies drop(#[trigger] s[i]) by {
            if i < s.len() - 1 {
                assert(rest[i] == s[i]);
            }
        }
    } else {
        assert(s.take(s.len() as int) =~= s);
    }
}

/// Only slashes are cut off the end of an address, and all of them are.
pub proof fn law_trailing_slashes_cut(s: Seq<char>)
    ensures
        unslashed(s).is_prefix_of(s),
        forall|i: int| unslashed(s).len() <= i < s.len() ==> #[trigger] s[i] == '/',
        unslashed(s).len() > 0 ==> unslashed(s).last() != '/',
{
    let slash = |c: char| c == '/';
    lemma_trailing_dropped(s, slash);
    lemma_without_trailing(s, slash);
    assert forall|i: int| unslashed(s).len() <= i < s.len() implies #[trigger] s[i] == '/' by {
        assert(slash(s[i]));
    }
}

/// What follows the last occurrence of a part: the text ends with the part and
/// what follows it, and the part does not begin again after that place.
pub proof fn law_after_last(s: Seq<char>, part: Seq<char>)
    ensures
        after_last(s, part) is Some <==> exists|at: int|
            0 <= at && at + part.len() <= s.len() && #[trigger] s.subrange(at, at + part.len())
                == part,
        after_last(s, part) matches Some(rest) ==> ({
            let at = s.len() - rest.len() - part.len();
            &&& at >= 0
            &&& s == s.take(at) + part + rest
            &&& forall|later: int|
                at < later && later + part.len() <= s.len() ==> #[trigger] s.subrange(
                    later,
                    later + part.len(),
                ) != part
        }),
{
    if occurs(s, part) {
        let first = choose|at: int| occurs_at(s, part, at);
        assert(s.subrange(first, first + part.len()) == part);
        lemma_has_last(s, part, first);
        let at = choose|at: int| occurs_last_at(s, part, at);
        let rest = s.skip(at + part.len());
        assert(s =~= s.take(at) + s.subrange(at, at + part.len()) + rest);
        assert forall|later: int|
            at < later && later + part.len() <= s.len() implies #[trigger] s.subrange(
            later,
            later + part.len(),
        ) != part by {
            if s.subrange(later, later + part.len()) == part {
                assert(occurs_at(s, part, later));
            }
        }
    } else {
        assert forall|at: int| 0 <= at && at + part.len() <= s.len() implies #[trigger] s.subrange(
            at,
            at + part.len(),
        ) != part by {
            if s.subrange(at, at + part.len()) == part {
                assert(occurs_at(s, part, at));
            }
        }
    }
}

proof fn lemma_has_last(s: Seq<char>, part: Seq<char>, at: int)
    requires
        occurs_at(s, part, at),
    ensures
        exists|last: int| occurs_last_at(s, part, last),
    decreases s.len() - at,
{
    if exists|later: int| occurs_at(s, part, later) && later > at {
        let later = choose|later: int| occurs_at(s, part, later) && later > at;
        lemma_has_last(s, part, later);
    } else {
        assert(occurs_last_at(s, part, at));
    }
}

/// Two texts are the same up to case exactly where they are equally long and each
/// pair of characters is equal, or is an ASCII capital and its small letter.
pub proof fn law_same_up_to_case(a: Seq<char>, b: Seq<char>)
    ensures
        same_ignoring_case(a, b) <==> a.len() == b.len() && forall|i: int|
            #![trigger a[i]]
            0 <= i < a.len() ==> {
                ||| a[i] == b[i]
                ||| 'A' <= a[i] <= 'Z' && b[i] as u32 == a[i] as u32 + 32
                ||| 'A' <= b[i] <= 'Z' && a[i] as u32 == b[i] as u32 + 32
            },
{
    if a.len() == b.len() {
        assert forall|i: int| #![trigger a[i]] 0 <= i < a.len() implies (ascii_lower(a[i])
            == ascii_lower(b[i]) <==> {
            ||| a[i] == b[i]
            ||| 'A' <= a[i] <= 'Z' && b[i] as u32 == a[i] as u32 + 32
            ||| 'A' <= b[i] <= 'Z' && a[i] as u32 == b[i] as u32 + 32
        }) by {
            lemma_letter_pair(a[i], b[i]);
        }
    }
}

proof fn lemma_letter_pair(a: char, b: char)
    ensures
        ascii_lower(a) == ascii_lower(b) <==> {
            ||| a == b
            ||| 'A' <= a <= 'Z' && b as u32 == a as u32 + 32
            ||| 'A' <= b <= 'Z' && a as u32 == b as u32 + 32
        },
{
    assert(ascii_lower(a) as u32 == if 'A' <= a <= 'Z' {
        (a as u32 + 32) as u32
    } else {
        a as u32
    });
    assert(ascii_lower(b) as u32 == if 'A' <= b <= 'Z' {
        (b as u32 + 32) as u32
    } else {
        b as u32
    });
}

/// The first line that begins with the prefix decides; without such a line there
/// is nothing to find.
pub proof fn law_first_line_decides(line: Seq<char>, rest: Seq<char>, prefix: Seq<char>)
    requires
        !line.contains('\n'),
    ensures
        prefix.is_prefix_of(line) ==> line_rest(line, prefix) == Some(
            line.skip(prefix.len() as int),
        ) && line_rest(line + seq!['\n'] + rest, prefix) == Some(line.skip(prefix.len() as int)),
        !prefix.is_prefix_of(line) ==> line_rest(line, prefix) is None && line_rest(
            line + seq!['\n'] + rest,
            prefix,
        ) == line_rest(rest, prefix),
{
    let n = line.len() as int;
    let whole = line + seq!['\n'] + rest;
    assert forall|i: int| 0 <= i < n implies line[i] != '\n' by {
        assert(line.contains(line[i]));
    }
    lemma_line_len(line, n);
    lemma_line_len(whole, n);
    assert(line.take(n) =~= line);
    assert(whole.take(n) =~= line);
    assert(whole.skip(n + 1) =~= rest);
}

/// Every leading occurrence of the prefix goes, and nothing else does.
pub proof fn law_prefixes_dropped(s: Seq<char>, prefix: Seq<char>)
    ensures
        without_prefixes(prefix + s, prefix) == without_prefixes(s, prefix),
        !prefix.is_prefix_of(s) ==> without_prefixes(s, prefix) == s,
{
    if prefix.len() > 0 {
        assert((prefix + s).take(prefix.len() as int) =~= prefix);
        assert((prefix + s).skip(prefix.len() as int) =~= s);
    } else {
        assert(prefix + s =~= s);
    }
}

/// A number is written with its digits alone, and without a needless zero in
/// front; a negative one has a minus sign before them.
pub proof fn law_decimal_form(n: nat)
    ensures
        decimal(n).len() > 0,
        forall|i: int| 0 <= i < decimal(n).len() ==> '0' <= #[trigger] decimal(n)[i] <= '9',
        decimal(n)[0] == '0' ==> n == 0 && decimal(n).len() == 1,
        signed_decimal(n as int) == decimal(n),
        n > 0 ==> signed_decimal(-(n as int)) == seq!['-'] + decimal(n),
    decreases n,
{
    lemma_decimal_digits(n);
    if n >= 10 {
        law_decimal_form(n / 10);
        assert(decimal(n)[0] == decimal(n / 10)[0]);
    }
}

/// A number is read from digits, each of which counts ten times as much as the one
/// behind it, with or without a plus sign in front; anything else is no number.
pub proof fn law_decimal_read(s: Seq<char>, c: char)
    ensures
        s.len() > 0 && (forall|i: int| 0 <= i < s.len() ==> '0' <= #[trigger] s[i] <= '9') ==> {
            &&& decimal_value(s) is Some
            &&& decimal_value(seq!['+'] + s) == decimal_value(s)
            &&& '0' <= c <= '9' ==> decimal_value(s.push(c)) == Some(
                (decimal_value(s)->0 * 10 + (c as u32 - '0' as u32)) as nat,
            )
        },
        '0' <= c <= '9' ==> decimal_value(seq![c]) == Some((c as u32 - '0' as u32) as nat),
        decimal_value(Seq::empty()) is None,
        decimal_value(seq!['+']) is None,
        decimal_value(s) is Some ==> s.len() > 0 && forall|i: int|
            0 <= i < s.len() ==> ('0' <= #[trigger] s[i] <= '9' || (i == 0 && s[0] == '+')),
{
    reveal_with_fuel(digits_value, 2);
    if s.len() > 0 && (forall|i: int| 0 <= i < s.len() ==> '0' <= #[trigger] s[i] <= '9') {
        assert(s[0] != '+');
        assert((seq!['+'] + s).drop_first() =~= s);
        assert(s.push(c)[0] == s[0]);
        assert(s.push(c).drop_last() =~= s);
    }
    assert(seq![c].drop_last() =~= Seq::<char>::empty());
    assert(seq!['+'].drop_first() =~= Seq::<char>::empty());
    if decimal_value(s) is Some {
        assert forall|i: int| 0 <= i < s.len() implies ('0' <= #[trigger] s[i] <= '9' || (i == 0
            && s[0] == '+')) by {
            if s[0] == '+' && i > 0 {
                assert(s.drop_first()[i - 1] == s[i]);
            }
        }
    }
}

}
