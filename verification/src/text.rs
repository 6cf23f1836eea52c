//! Character-level text handling shared by the packet, file and registry logic.
//!
//! Text is handled as sequences of `char`; each exec function is tied to a spec
//! function that states, as directly as possible, what std's counterpart does.
use vstd::prelude::*;
use vstd::string::StringSliceAdditionalSpecFns;
use vstd::utf8::*;

verus! {

// ------------------------------------------------------------------
// Conversions between `str`/`String` and character vectors
// ------------------------------------------------------------------

/// The characters of a string slice, in order.
pub fn chars_of(s: &str) -> (r: Vec<char>)
    ensures
        r@ == s@,
{
    let mut r: Vec<char> = Vec::new();
    for c in it: s.chars()
        invariant
            r@ == it.seq().take(it.index() as int),
            it.seq() == s@,
    {
        r.push(c);
    }
    r
}

/// `String` built from characters (std's `FromIterator<char>` for `String`): it
/// holds exactly those characters, in order.
#[verifier::external_body]
pub(crate) fn string_of(v: &Vec<char>) -> (r: String)
    ensures
        r@ == v@,
{
    v.iter().collect()
}

/// An owned copy of a string slice.
pub fn owned(s: &str) -> (r: String)
    ensures
        r@ == s@,
{
    s.to_owned()
}

/// A copy of `s[from..to]`.
pub fn copy_range<T: Copy>(s: &Vec<T>, from: usize, to: usize) -> (r: Vec<T>)
    requires
        from <= to <= s.len(),
    ensures
        r@ == s@.subrange(from as int, to as int),
{
    let mut r: Vec<T> = Vec::new();
    let mut k = from;
    while k < to
        invariant
            from <= k <= to <= s.len(),
            r@ == s@.subrange(from as int, k as int),
        decreases to - k,
    {
        r.push(s[k]);
        k += 1;
    }
    r
}

/// `a` followed by `b`.
pub fn concat<T: Copy>(a: &Vec<T>, b: &Vec<T>) -> (r: Vec<T>)
    ensures
        r@ == a@ + b@,
{
    let mut r = copy_range(a, 0, a.len());
    let mut k: usize = 0;
    while k < b.len()
        invariant
            k <= b.len(),
            r@ == a@ + b@.take(k as int),
        decreases b.len() - k,
    {
        r.push(b[k]);
        proof {
            assert(b@.take(k + 1) == b@.take(k as int).push(b@[k as int]));
        }
        k += 1;
    }
    proof {
        assert(b@.take(b.len() as int) == b@);
    }
    r
}

// ------------------------------------------------------------------
// Unicode white space and trimming (`str::trim`)
// ------------------------------------------------------------------

/// The Unicode `White_Space` property, which `char::is_whitespace` tests.
pub open spec fn is_white_space(c: char) -> bool {
    let u = c as u32;
    ||| 0x9 <= u <= 0xd
    ||| u == 0x20
    ||| u == 0x85
    ||| u == 0xa0
    ||| u == 0x1680
    ||| 0x2000 <= u <= 0x200a
    ||| u == 0x2028
    ||| u == 0x2029
    ||| u == 0x202f
    ||| u == 0x205f
    ||| u == 0x3000
}

pub fn white_space(c: char) -> (r: bool)
    ensures
        r == is_white_space(c),
{
    let u = c as u32;
    (0x9 <= u && u <= 0xd) || u == 0x20 || u == 0x85 || u == 0xa0 || u == 0x1680 || (0x2000 <= u
        && u <= 0x200a) || u == 0x2028 || u == 0x2029 || u == 0x202f || u == 0x205f || u == 0x3000
}

/// `s` without its leading white space.
pub open spec fn trim_start_spec(s: Seq<char>) -> Seq<char>
    decreases s.len(),
{
    if s.len() > 0 && is_white_space(s[0]) {
        trim_start_spec(s.drop_first())
    } else {
        s
    }
}

/// `s` without its trailing white space.
pub open spec fn trim_end_spec(s: Seq<char>) -> Seq<char>
    decreases s.len(),
{
    if s.len() > 0 && is_white_space(s.last()) {
        trim_end_spec(s.drop_last())
    } else {
        s
    }
}

/// `str::trim`: `s` without leading and trailing white space.
pub open spec fn trim_spec(s: Seq<char>) -> Seq<char> {
    trim_end_spec(trim_start_spec(s))
}

/// `str::trim` on characters.
pub fn trim(s: &Vec<char>) -> (r: Vec<char>)
    ensures
        r@ == trim_spec(s@),
{
    let n = s.len();
    let mut i: usize = 0;
    proof {
        assert(s@.skip(0) =~= s@);
    }
    while i < n && white_space(s[i])
        invariant
            i <= n == s.len(),
            trim_start_spec(s@) == trim_start_spec(s@.skip(i as int)),
        decreases n - i,
    {
        proof {
            assert(s@.skip(i as int).drop_first() == s@.skip(i + 1));
        }
        i += 1;
    }
    proof {
        assert(trim_start_spec(s@.skip(i as int)) == s@.skip(i as int));
        assert(s@.skip(i as int) == s@.subrange(i as int, n as int));
    }
    let mut j: usize = n;
    while j > i && white_space(s[j - 1])
        invariant
            i <= j <= n == s.len(),
            trim_spec(s@) == trim_end_spec(s@.subrange(i as int, j as int)),
        decreases j,
    {
        proof {
            assert(s@.subrange(i as int, j as int).drop_last() == s@.subrange(i as int, j - 1));
        }
        j -= 1;
    }
    copy_range(s, i, j)
}

/// `str::trim_start_matches(c)` for one character: every leading `c` removed.
pub open spec fn strip_leading_spec(s: Seq<char>, c: char) -> Seq<char>
    decreases s.len(),
{
    if s.len() > 0 && s[0] == c {
        strip_leading_spec(s.drop_first(), c)
    } else {
        s
    }
}

/// `str::trim_end_matches(c)` for one character: every trailing `c` removed.
pub open spec fn strip_trailing_spec(s: Seq<char>, c: char) -> Seq<char>
    decreases s.len(),
{
    if s.len() > 0 && s.last() == c {
        strip_trailing_spec(s.drop_last(), c)
    } else {
        s
    }
}

pub fn strip_leading(s: &Vec<char>, c: char) -> (r: Vec<char>)
    ensures
        r@ == strip_leading_spec(s@, c),
{
    let n = s.len();
    let mut i: usize = 0;
    proof {
        assert(s@.skip(0) =~= s@);
    }
    while i < n && s[i] == c
        invariant
            i <= n == s.len(),
            strip_leading_spec(s@, c) == strip_leading_spec(s@.skip(i as int), c),
        decreases n - i,
    {
        proof {
            assert(s@.skip(i as int).drop_first() == s@.skip(i + 1));
        }
        i += 1;
    }
    proof {
        assert(s@.skip(i as int) == s@.subrange(i as int, n as int));
    }
    copy_range(s, i, n)
}

pub fn strip_trailing(s: &Vec<char>, c: char) -> (r: Vec<char>)
    ensures
        r@ == strip_trailing_spec(s@, c),
{
    let mut j: usize = s.len();
    proof {
        assert(s@.take(j as int) =~= s@);
    }
    while j > 0 && s[j - 1] == c
        invariant
            j <= s.len(),
            strip_trailing_spec(s@, c) == strip_trailing_spec(s@.take(j as int), c),
        decreases j,
    {
        proof {
            assert(s@.take(j as int).drop_last() == s@.take(j - 1));
        }
        j -= 1;
    }
    proof {
        assert(s@.take(j as int) == s@.subrange(0, j as int));
    }
    copy_range(s, 0, j)
}

// ------------------------------------------------------------------
// Prefixes, suffixes, substrings
// ------------------------------------------------------------------

pub open spec fn has_prefix(s: Seq<char>, p: Seq<char>) -> bool {
    p.len() <= s.len() && s.take(p.len() as int) == p
}

pub open spec fn has_suffix(s: Seq<char>, p: Seq<char>) -> bool {
    p.len() <= s.len() && s.skip(s.len() - p.len()) == p
}

/// `s` holds `p` as a contiguous part.
pub open spec fn has_part(s: Seq<char>, p: Seq<char>) -> bool {
    exists|i: int| 0 <= i <= s.len() - p.len() && #[trigger] s.subrange(i, i + p.len()) == p
}

/// Whether `s[at..at + p.len()]` equals `p`.
pub fn matches_at(s: &Vec<char>, at: usize, p: &Vec<char>) -> (r: bool)
    requires
        at <= s.len(),
    ensures
        r == (p.len() <= s.len() - at && s@.subrange(at as int, at + p.len()) == p@),
{
    if p.len() > s.len() - at {
        return false;
    }
    let mut k: usize = 0;
    while k < p.len()
        invariant
            k <= p.len() <= s.len() - at,
            s@.subrange(at as int, at + k) == p@.take(k as int),
        decreases p.len() - k,
    {
        if s[at + k] != p[k] {
            proof {
                assert(s@.subrange(at as int, at + p.len())[k as int] != p@[k as int]);
            }
            return false;
        }
        proof {
            assert(s@.subrange(at as int, at + k + 1) == s@.subrange(at as int, at + k).push(
                s@[at + k],
            ));
            assert(p@.take(k + 1) == p@.take(k as int).push(p@[k as int]));
        }
        k += 1;
    }
    proof {
        assert(p@.take(p.len() as int) == p@);
    }
    true
}

/// Whether two character vectors are equal.
pub fn seq_eq(x: &Vec<char>, y: &Vec<char>) -> (r: bool)
    ensures
        r == (x@ == y@),
{
    if x.len() != y.len() {
        return false;
    }
    let r = matches_at(x, 0, y);
    proof {
        assert(x@.subrange(0, y.len() as int) =~= x@);
    }
    r
}

/// Whether two strings hold the same characters (`==` between `String` and `&str`).
pub fn same_text(a: &str, b: &str) -> (r: bool)
    ensures
        r == (a@ == b@),
{
    let x = chars_of(a);
    let y = chars_of(b);
    if x.len() != y.len() {
        return false;
    }
    let r = matches_at(&x, 0, &y);
    proof {
        assert(x@.subrange(0, y.len() as int) =~= x@);
    }
    r
}

pub fn starts_with(s: &Vec<char>, p: &Vec<char>) -> (r: bool)
    ensures
        r == has_prefix(s@, p@),
{
    let r = matches_at(s, 0, p);
    proof {
        if p.len() <= s.len() {
            assert(s@.take(p.len() as int) == s@.subrange(0, p.len() as int));
        }
    }
    r
}

pub fn ends_with(s: &Vec<char>, p: &Vec<char>) -> (r: bool)
    ensures
        r == has_suffix(s@, p@),
{
    if p.len() > s.len() {
        return false;
    }
    let r = matches_at(s, s.len() - p.len(), p);
    proof {
        assert(s@.skip(s.len() - p.len()) == s@.subrange(s.len() - p.len(), s.len() as int));
    }
    r
}

pub fn contains_part(s: &Vec<char>, p: &Vec<char>) -> (r: bool)
    ensures
        r == has_part(s@, p@),
{
    if p.len() > s.len() {
        return false;
    }
    let last = s.len() - p.len();
    let mut i: usize = 0;
    loop
        invariant
            last == s.len() - p.len(),
            i <= last,
            forall|j: int| 0 <= j < i ==> #[trigger] s@.subrange(j, j + p.len()) != p@,
        decreases last - i,
    {
        if matches_at(s, i, p) {
            return true;
        }
        if i == last {
            return false;
        }
        i += 1;
    }
}

/// `s` with its leading `p` removed, when it has one (`str::strip_prefix` then
/// `unwrap_or(s)`).
pub open spec fn without_prefix(s: Seq<char>, p: Seq<char>) -> Seq<char> {
    if has_prefix(s, p) {
        s.skip(p.len() as int)
    } else {
        s
    }
}

pub fn strip_prefix_or_keep(s: &Vec<char>, p: &Vec<char>) -> (r: Vec<char>)
    ensures
        r@ == without_prefix(s@, p@),
{
    if starts_with(s, p) {
        proof {
            assert(s@.skip(p.len() as int) == s@.subrange(p.len() as int, s.len() as int));
        }
        copy_range(s, p.len(), s.len())
    } else {
        copy_range(s, 0, s.len())
    }
}

// ------------------------------------------------------------------
// Character replacement
// ------------------------------------------------------------------

/// Every `from` replaced by `to` (`str::replace` with one character each).
pub open spec fn replace_char_spec(s: Seq<char>, from: char, to: char) -> Seq<char> {
    s.map_values(|x: char| if x == from { to } else { x })
}

pub fn replace_char(s: &Vec<char>, from: char, to: char) -> (r: Vec<char>)
    ensures
        r@ == replace_char_spec(s@, from, to),
{
    let mut r: Vec<char> = Vec::new();
    let mut k: usize = 0;
    while k < s.len()
        invariant
            k <= s.len(),
            r@ == replace_char_spec(s@.take(k as int), from, to),
        decreases s.len() - k,
    {
        let c = s[k];
        r.push(if c == from { to } else { c });
        proof {
            assert(s@.take(k + 1) == s@.take(k as int).push(c));
            assert(replace_char_spec(s@.take(k + 1), from, to) == replace_char_spec(
                s@.take(k as int),
                from,
                to,
            ).push(if c == from { to } else { c }));
        }
        k += 1;
    }
    proof {
        assert(s@.take(s.len() as int) == s@);
    }
    r
}

/// Every `c` removed (`str::replace(c, "")`).
pub open spec fn remove_char_spec(s: Seq<char>, c: char) -> Seq<char>
    decreases s.len(),
{
    if s.len() == 0 {
        s
    } else if s.last() == c {
        remove_char_spec(s.drop_last(), c)
    } else {
        remove_char_spec(s.drop_last(), c).push(s.last())
    }
}

pub fn remove_char(s: &Vec<char>, c: char) -> (r: Vec<char>)
    ensures
        r@ == remove_char_spec(s@, c),
{
    let mut r: Vec<char> = Vec::new();
    let mut k: usize = 0;
    while k < s.len()
        invariant
            k <= s.len(),
            r@ == remove_char_spec(s@.take(k as int), c),
        decreases s.len() - k,
    {
        proof {
            assert(s@.take(k + 1).drop_last() == s@.take(k as int));
        }
        if s[k] != c {
            r.push(s[k]);
        }
        k += 1;
    }
    proof {
        assert(s@.take(s.len() as int) == s@);
    }
    r
}

// ------------------------------------------------------------------
// Lines (`str::lines`)
// ------------------------------------------------------------------

/// Index of the first `c` in `s`, or -1.
pub open spec fn index_of(s: Seq<char>, c: char) -> int
    decreases s.len(),
{
    if s.len() == 0 {
        -1
    } else if s[0] == c {
        0
    } else {
        let r = index_of(s.drop_first(), c);
        if r < 0 {
            -1
        } else {
            r + 1
        }
    }
}

pub proof fn lemma_index_of(s: Seq<char>, c: char)
    ensures
        index_of(s, c) < 0 ==> forall|j: int| 0 <= j < s.len() ==> s[j] != c,
        index_of(s, c) >= 0 ==> index_of(s, c) < s.len() && s[index_of(s, c)] == c && forall|
            j: int,
        |
            0 <= j < index_of(s, c) ==> s[j] != c,
    decreases s.len(),
{
    if s.len() > 0 && s[0] != c {
        lemma_index_of(s.drop_first(), c);
        assert forall|j: int| 0 < j < s.len() implies s[j] == s.drop_first()[j - 1] by {}
    }
}

pub proof fn lemma_index_of_at(s: Seq<char>, c: char, m: int)
    requires
        0 <= m <= s.len(),
        forall|j: int| 0 <= j < m ==> s[j] != c,
        m < s.len() ==> s[m] == c,
    ensures
        index_of(s, c) == if m < s.len() {
            m
        } else {
            -1
        },
{
    lemma_index_of(s, c);
}

/// A line's terminating `\r`, if any, removed.
pub open spec fn strip_cr(l: Seq<char>) -> Seq<char> {
    if l.len() > 0 && l.last() == '\r' {
        l.drop_last()
    } else {
        l
    }
}

/// The first line of `s` as `str::lines` yields it (`s` non-empty): up to the
/// first `\n`, without a `\r` before it; the whole rest when there is no `\n`.
pub open spec fn first_line(s: Seq<char>) -> Seq<char> {
    let i = index_of(s, '\n');
    if i < 0 {
        s
    } else {
        strip_cr(s.take(i))
    }
}

/// What follows the first line and its `\n`.
pub open spec fn after_first_line(s: Seq<char>) -> Seq<char> {
    let i = index_of(s, '\n');
    if i < 0 {
        Seq::empty()
    } else {
        s.skip(i + 1)
    }
}

/// The lines of `s`, as `str::lines` yields them.
pub open spec fn lines_spec(s: Seq<char>) -> Seq<Seq<char>>
    decreases s.len(),
{
    if s.len() == 0 {
        Seq::empty()
    } else {
        proof {
            lemma_index_of(s, '\n');
        }
        seq![first_line(s)] + lines_spec(after_first_line(s))
    }
}

pub proof fn lemma_after_first_line_shorter(s: Seq<char>)
    requires
        s.len() > 0,
    ensures
        after_first_line(s).len() < s.len(),
{
    lemma_index_of(s, '\n');
}

/// The line that starts at `pos`, and where the next one starts.
pub fn next_line(s: &Vec<char>, pos: usize) -> (r: (Vec<char>, usize))
    requires
        pos < s.len(),
    ensures
        r.0@ == first_line(s@.skip(pos as int)),
        pos < r.1 <= s.len(),
        s@.skip(r.1 as int) == after_first_line(s@.skip(pos as int)),
{
    let n = s.len();
    let mut k = pos;
    while k < n && s[k] != '\n'
        invariant
            pos <= k <= n == s.len(),
            forall|j: int| pos <= j < k ==> s@[j] != '\n',
        decreases n - k,
    {
        k += 1;
    }
    let ghost t = s@.skip(pos as int);
    proof {
        lemma_index_of_at(t, '\n', k - pos);
    }
    if k == n {
        let line = copy_range(s, pos, n);
        proof {
            assert(line@ =~= t);
            assert(s@.skip(n as int) =~= Seq::<char>::empty());
        }
        (line, n)
    } else {
        let mut end = k;
        if end > pos && s[end - 1] == '\r' {
            end = end - 1;
        }
        let line = copy_range(s, pos, end);
        proof {
            assert(t.take(k - pos) =~= s@.subrange(pos as int, k as int));
            if k > pos && s@[k - 1] == '\r' {
                assert(line@ =~= t.take(k - pos).drop_last());
            } else {
                assert(line@ =~= t.take(k - pos));
            }
            assert(s@.skip(k + 1) =~= t.skip(k - pos + 1));
        }
        (line, k + 1)
    }
}

// ------------------------------------------------------------------
// Decimal numbers (`str::parse` for unsigned integers, `to_string`)
// ------------------------------------------------------------------

pub open spec fn is_digit(c: char) -> bool {
    48 <= (c as u32) <= 57
}

pub open spec fn digit_value(c: char) -> nat {
    ((c as u32) - 48) as nat
}

pub open spec fn all_digits(s: Seq<char>) -> bool {
    forall|i: int| 0 <= i < s.len() ==> is_digit(#[trigger] s[i])
}

/// The number that a run of decimal digits denotes.
pub open spec fn digits_value(s: Seq<char>) -> nat
    decreases s.len(),
{
    if s.len() == 0 {
        0
    } else {
        digits_value(s.drop_last()) * 10 + digit_value(s.last())
    }
}

/// The digits part of an unsigned number's text: an optional leading `+` removed.
pub open spec fn unsigned_digits(s: Seq<char>) -> Seq<char> {
    if s.len() > 0 && s[0] == '+' {
        s.drop_first()
    } else {
        s
    }
}

/// `str::parse` for an unsigned integer type whose maximum is `max`: an optional
/// `+`, then at least one decimal digit, denoting at most `max`.
pub open spec fn parse_unsigned(s: Seq<char>, max: nat) -> Option<nat> {
    let d = unsigned_digits(s);
    if d.len() > 0 && all_digits(d) && digits_value(d) <= max {
        Some(digits_value(d))
    } else {
        None
    }
}

pub fn parse_u64(s: &Vec<char>) -> (r: Option<u64>)
    ensures
        r matches Some(v) ==> parse_unsigned(s@, u64::MAX as nat) == Some(v as nat),
        r is None ==> parse_unsigned(s@, u64::MAX as nat) is None,
{
    let n = s.len();
    let start: usize = if n > 0 && s[0] == '+' {
        1
    } else {
        0
    };
    let ghost d = unsigned_digits(s@);
    proof {
        assert(d =~= s@.skip(start as int));
    }
    if start == n {
        return None;
    }
    let mut acc: u64 = 0;
    let mut i: usize = start;
    while i < n
        invariant
            start <= i <= n == s.len(),
            d == s@.skip(start as int),
            d == unsigned_digits(s@),
            forall|j: int| 0 <= j < i - start ==> is_digit(#[trigger] d[j]),
            acc as nat == digits_value(d.take(i - start)),
        decreases n - i,
    {
        let c = s[i];
        let u = c as u32;
        proof {
            assert(d[i - start] == s@[i as int]);
        }
        if u < 48 || u > 57 {
            proof {
                assert(!is_digit(d[i - start]));
            }
            return None;
        }
        proof {
            assert(d.take(i - start + 1).drop_last() =~= d.take(i - start));
            assert(d.take(i - start + 1).last() == c);
        }
        let dv = (u - 48) as u64;
        if acc > (u64::MAX - dv) / 10 {
            proof {
                let v = acc as int;
                let w = dv as int;
                assert(v * 10 + w > u64::MAX) by (nonlinear_arith)
                    requires
                        v > (u64::MAX - w) / 10,
                        0 <= w <= 9,
                ;
                // every longer prefix is at least as large
                lemma_digits_prefix_grows(d, i - start + 1);
            }
            return None;
        }
        acc = acc * 10 + dv;
        i += 1;
    }
    proof {
        assert(d.take(n - start) =~= d);
    }
    Some(acc)
}

/// Extending a run of digits never makes its value smaller.
pub proof fn lemma_digits_prefix_grows(d: Seq<char>, k: int)
    requires
        0 <= k <= d.len(),
    ensures
        digits_value(d.take(k)) <= digits_value(d),
    decreases d.len() - k,
{
    if k < d.len() {
        lemma_digits_prefix_grows(d, k + 1);
        assert(d.take(k + 1).drop_last() =~= d.take(k));
    } else {
        assert(d.take(k) =~= d);
    }
}

pub fn parse_u16(s: &Vec<char>) -> (r: Option<u16>)
    ensures
        r matches Some(v) ==> parse_unsigned(s@, u16::MAX as nat) == Some(v as nat),
        r is None ==> parse_unsigned(s@, u16::MAX as nat) is None,
{
    match parse_u64(s) {
        Some(v) => {
            if v <= 65535 {
                Some(v as u16)
            } else {
                None
            }
        },
        None => None,
    }
}

pub open spec fn digit_char(d: nat) -> char {
    ((d + 48) as u8) as char
}

/// The decimal text of `n` (`to_string` on an unsigned integer).
pub open spec fn decimal_spec(n: nat) -> Seq<char>
    decreases n,
{
    if n < 10 {
        seq![digit_char(n)]
    } else {
        decimal_spec(n / 10).push(digit_char(n % 10))
    }
}

fn digit_to_char(d: u64) -> (c: char)
    requires
        d < 10,
    ensures
        c == digit_char(d as nat),
{
    let b: u8 = 48 + d as u8;
    let c = b as char;
    proof {
        assert(c as u32 == (d + 48) as u32);
    }
    c
}

pub fn decimal(n: u64) -> (r: Vec<char>)
    ensures
        r@ == decimal_spec(n as nat),
    decreases n,
{
    if n < 10 {
        let mut v: Vec<char> = Vec::new();
        v.push(digit_to_char(n));
        v
    } else {
        let mut v = decimal(n / 10);
        v.push(digit_to_char(n % 10));
        v
    }
}

/// Decimal text reads back as the number it was written from.
pub proof fn lemma_decimal_digits(n: nat)
    ensures
        decimal_spec(n).len() > 0,
        all_digits(decimal_spec(n)),
        digits_value(decimal_spec(n)) == n,
        decimal_spec(n)[0] != '+',
    decreases n,
{
    assert(digit_value(digit_char(n % 10)) == n % 10);
    if n < 10 {
        let s = decimal_spec(n);
        assert(s.drop_last() =~= Seq::<char>::empty());
        assert(digits_value(Seq::<char>::empty()) == 0);
        assert(s.last() == digit_char(n));
        assert(n % 10 == n);
        assert(digits_value(s) == digits_value(s.drop_last()) * 10 + digit_value(s.last()));
    }
    if n >= 10 {
        lemma_decimal_digits(n / 10);
        let s = decimal_spec(n);
        assert(s.drop_last() =~= decimal_spec(n / 10));
        assert(s.last() == digit_char(n % 10));
        assert(digits_value(s) == digits_value(s.drop_last()) * 10 + digit_value(s.last()));
        assert((n / 10) * 10 + n % 10 == n);
        assert forall|i: int| 0 <= i < s.len() implies is_digit(#[trigger] s[i]) by {
            if i < s.len() - 1 {
                assert(s[i] == decimal_spec(n / 10)[i]);
            }
        }
    }
}

// ------------------------------------------------------------------
// Case handling
// ------------------------------------------------------------------

/// What `str::to_lowercase` returns for a string (Unicode lower-case mapping).
pub uninterp spec fn str_lowercase(s: Seq<char>) -> Seq<char>;

/// `str::to_lowercase`. The result is named, not stated: it follows Unicode's
/// lower-case mapping tables.
#[verifier::external_body]
pub(crate) fn lowercase(s: &str) -> (r: String)
    ensures
        r@ == str_lowercase(s@),
{
    s.to_lowercase()
}

/// `str::to_lowercase` on characters.
pub fn lowercase_chars(s: &Vec<char>) -> (r: Vec<char>)
    ensures
        r@ == str_lowercase(s@),
{
    let t = string_of(s);
    chars_of(lowercase(t.as_str()).as_str())
}

pub open spec fn ascii_lower_byte(b: u8) -> u8 {
    if 65 <= b <= 90 {
        (b + 32) as u8
    } else {
        b
    }
}

/// `str::eq_ignore_ascii_case`: same UTF-8 bytes once ASCII capitals are lowered.
pub open spec fn eq_ignore_ascii_case_spec(a: Seq<u8>, b: Seq<u8>) -> bool {
    a.len() == b.len() && forall|i: int|
        0 <= i < a.len() ==> ascii_lower_byte(#[trigger] a[i]) == ascii_lower_byte(b[i])
}

pub fn eq_ignore_ascii_case(a: &str, b: &str) -> (r: bool)
    ensures
        r == eq_ignore_ascii_case_spec(a.spec_bytes(), b.spec_bytes()),
{
    let x = a.as_bytes();
    let y = b.as_bytes();
    if x.len() != y.len() {
        return false;
    }
    let mut i: usize = 0;
    while i < x.len()
        invariant
            x@ == a.spec_bytes(),
            y@ == b.spec_bytes(),
            x.len() == y.len(),
            i <= x.len(),
            forall|j: int| 0 <= j < i ==> ascii_lower_byte(#[trigger] x@[j]) == ascii_lower_byte(
                y@[j],
            ),
        decreases x.len() - i,
    {
        let p = x[i];
        let q = y[i];
        let lp = if p >= 65 && p <= 90 {
            p + 32
        } else {
            p
        };
        let lq = if q >= 65 && q <= 90 {
            q + 32
        } else {
            q
        };
        if lp != lq {
            return false;
        }
        i += 1;
    }
    true
}

// ------------------------------------------------------------------
// Decoding bytes and Debug rendering (std)
// ------------------------------------------------------------------

/// `std::str::from_utf8`: the text when the bytes are valid UTF-8.
#[verifier::external_body]
pub(crate) fn utf8_decode(bytes: &[u8]) -> (r: Option<String>)
    ensures
        r is Some <==> valid_utf8(bytes@),
        r matches Some(t) ==> t@ == decode_utf8(bytes@),
{
    match std::str::from_utf8(bytes) {
        Ok(t) => Some(t.to_string()),
        Err(_) => None,
    }
}

/// What `String::from_utf8_lossy` returns: invalid sequences become U+FFFD.
pub uninterp spec fn utf8_lossy(bytes: Seq<u8>) -> Seq<char>;

/// `String::from_utf8_lossy`. Valid UTF-8 decodes as such; what replaces an
/// invalid sequence is named, not stated.
#[verifier::external_body]
pub(crate) fn utf8_lossy_decode(bytes: &[u8]) -> (r: String)
    ensures
        r@ == utf8_lossy(bytes@),
        valid_utf8(bytes@) ==> r@ == decode_utf8(bytes@),
{
    String::from_utf8_lossy(bytes).to_string()
}

/// What `String::from_utf16_lossy` returns for UTF-16 code units.
pub uninterp spec fn utf16_lossy(units: Seq<u16>) -> Seq<char>;

/// `String::from_utf16_lossy`; the result is named, not stated.
#[verifier::external_body]
pub(crate) fn utf16_lossy_decode(units: &[u16]) -> (r: String)
    ensures
        r@ == utf16_lossy(units@),
{
    String::from_utf16_lossy(units)
}

/// What `format!("{:?}", s)` writes for a string: quoted, with escapes.
pub uninterp spec fn str_debug(s: Seq<char>) -> Seq<char>;

/// `Debug` of a `str`; the escaping is named, not stated.
#[verifier::external_body]
pub(crate) fn debug_str(s: &str) -> (r: String)
    ensures
        r@ == str_debug(s@),
{
    format!("{:?}", s)
}

/// `Debug` of a list of strings: `[` then the items' `Debug`, separated by
/// `", "`, then `]`.
pub open spec fn list_debug(items: Seq<Seq<char>>) -> Seq<char> {
    seq!['['] + debug_items(items) + seq![']']
}

pub open spec fn debug_items(items: Seq<Seq<char>>) -> Seq<char>
    decreases items.len(),
{
    if items.len() == 0 {
        Seq::empty()
    } else if items.len() == 1 {
        str_debug(items[0])
    } else {
        debug_items(items.drop_last()) + ", "@ + str_debug(items.last())
    }
}

pub open spec fn strings_view(v: Seq<String>) -> Seq<Seq<char>> {
    v.map_values(|s: String| s@)
}

pub fn list_debug_string(items: &Vec<String>) -> (r: String)
    ensures
        r@ == list_debug(strings_view(items@)),
{
    let ghost iv = strings_view(items@);
    let mut acc: Vec<char> = Vec::new();
    acc.push('[');
    let sep = chars_of(", ");
    let mut k: usize = 0;
    while k < items.len()
        invariant
            k <= items.len(),
            iv == strings_view(items@),
            sep@ == ", "@,
            acc@ == seq!['['] + debug_items(iv.take(k as int)),
        decreases items.len() - k,
    {
        let d = chars_of(debug_str(items[k].as_str()).as_str());
        proof {
            assert(iv.take(k + 1).drop_last() =~= iv.take(k as int));
            assert(iv.take(k + 1).last() == items@[k as int]@);
        }
        if k > 0 {
            acc = concat(&acc, &sep);
        }
        acc = concat(&acc, &d);
        proof {
            if k == 0 {
                assert(iv.take(1).len() == 1);
                assert(acc@ =~= seq!['['] + debug_items(iv.take(1)));
            } else {
                assert(acc@ =~= seq!['['] + debug_items(iv.take(k + 1)));
            }
        }
        k += 1;
    }
    acc.push(']');
    proof {
        assert(iv.take(items.len() as int) =~= iv);
        assert(acc@ =~= list_debug(iv));
    }
    string_of(&acc)
}

} // verus!
