//! Character-level grammar of the log's syntactic markers: digit runs,
//! fixed literals, and the two "digits followed by a literal" patterns that
//! mark a memory-context header and an in-use byte count.
use vstd::prelude::*;

verus! {

/// A decimal digit character.
pub open spec fn is_digit(c: char) -> bool {
    48 <= c as u32 && c as u32 <= 57
}

/// Numeric value of a digit character.
pub open spec fn digit_val(c: char) -> int {
    c as u32 - 48
}

/// Value of a string of digit characters, most significant first.
pub open spec fn digits_val(s: Seq<char>) -> int
    decreases s.len(),
{
    if s.len() == 0 {
        0
    } else {
        digits_val(s.drop_last()) * 10 + digit_val(s.last())
    }
}

/// End of the run of digit characters that starts at position `i`.
pub open spec fn digits_end(s: Seq<char>, i: int) -> int
    decreases s.len() - i,
{
    if i < 0 || i >= s.len() {
        i
    } else if is_digit(s[i]) {
        digits_end(s, i + 1)
    } else {
        i
    }
}

/// The literal `lit` occurs in `s` at position `i`.
pub open spec fn lit_at(s: Seq<char>, i: int, lit: Seq<char>) -> bool {
    &&& 0 <= i
    &&& i + lit.len() <= s.len()
    &&& s.subrange(i, i + lit.len()) == lit
}

proof fn lemma_digits_end(s: Seq<char>, i: int)
    requires
        0 <= i <= s.len(),
    ensures
        i <= digits_end(s, i) <= s.len(),
        forall|k: int| i <= k < digits_end(s, i) ==> is_digit(#[trigger] s[k]),
        digits_end(s, i) < s.len() ==> !is_digit(s[digits_end(s, i)]),
    decreases s.len() - i,
{
    if i < s.len() && is_digit(s[i]) {
        lemma_digits_end(s, i + 1);
    }
}

fn is_digit_exec(c: char) -> (r: bool)
    ensures
        r == is_digit(c),
{
    let u: u32 = c as u32;
    48 <= u && u <= 57
}

/// Executable counterpart of `digits_end`.
fn digits_end_exec(s: &str, i: usize) -> (r: usize)
    requires
        i <= s@.len(),
    ensures
        r as int == digits_end(s@, i as int),
        i <= r <= s@.len(),
{
    let n: usize = s.unicode_len();
    let mut j: usize = i;
    while j < n && is_digit_exec(s.get_char(j))
        invariant
            i <= j <= n,
            n == s@.len(),
            digits_end(s@, i as int) == digits_end(s@, j as int),
        decreases n - j,
    {
        assert(digits_end(s@, j as int) == digits_end(s@, j + 1));
        j = j + 1;
    }
    proof {
        assert(digits_end(s@, j as int) == j);
    }
    j
}

/// Executable counterpart of `lit_at`.
pub fn lit_at_exec(s: &str, i: usize, lit: &str) -> (r: bool)
    ensures
        r == lit_at(s@, i as int, lit@),
{
    let n: usize = s.unicode_len();
    let m: usize = lit.unicode_len();
    if i > n || m > n - i {
        proof {
            assert(!lit_at(s@, i as int, lit@));
        }
        return false;
    }
    let mut j: usize = 0;
    while j < m
        invariant
            0 <= j <= m,
            i + m <= n,
            n == s@.len(),
            m == lit@.len(),
            forall|k: int| 0 <= k < j ==> s@[i + k] == lit@[k],
        decreases m - j,
    {
        if s.get_char(i + j) != lit.get_char(j) {
            proof {
                assert(s@.subrange(i as int, i + lit@.len())[j as int] != lit@[j as int]);
            }
            return false;
        }
        j = j + 1;
    }
    proof {
        assert(s@.subrange(i as int, i + lit@.len()) =~= lit@);
    }
    true
}

proof fn lemma_digits_val_bounds(s: Seq<char>)
    requires
        forall|k: int| 0 <= k < s.len() ==> is_digit(#[trigger] s[k]),
    ensures
        digits_val(s) >= 0,
    decreases s.len(),
{
    if s.len() > 0 {
        lemma_digits_val_bounds(s.drop_last());
    }
}

/// Value of the digit run `s[start..end]`, or `None` when it does not fit
/// in a `u64`.
fn parse_digits(s: &str, start: usize, end: usize) -> (r: Option<u64>)
    requires
        start <= end <= s@.len(),
        forall|k: int| start <= k < end ==> is_digit(#[trigger] s@[k]),
    ensures
        match r {
            Some(v) => v == digits_val(s@.subrange(start as int, end as int)),
            None => digits_val(s@.subrange(start as int, end as int)) > u64::MAX,
        },
{
    let mut j: usize = start;
    let mut acc: Option<u64> = Some(0);
    proof {
        assert(s@.subrange(start as int, start as int) =~= Seq::<char>::empty());
    }
    while j < end
        invariant
            start <= j <= end <= s@.len(),
            forall|k: int| start <= k < end ==> is_digit(#[trigger] s@[k]),
            match acc {
                Some(a) => a == digits_val(s@.subrange(start as int, j as int)),
                None => digits_val(s@.subrange(start as int, j as int)) > u64::MAX,
            },
        decreases end - j,
    {
        let c = s.get_char(j);
        assert(is_digit(c));
        let dv: u64 = (c as u32 - 48) as u64;
        let ghost pre = s@.subrange(start as int, j as int);
        let ghost post = s@.subrange(start as int, j + 1);
        proof {
            assert(post.drop_last() =~= pre);
            assert(post.last() == s@[j as int]);
            assert(digits_val(post) == digits_val(pre) * 10 + dv);
            lemma_digits_val_bounds(pre);
        }
        acc = match acc {
            Some(a) => {
                if a <= (u64::MAX - dv) / 10 {
                    proof {
                        assert(a * 10 + dv <= u64::MAX) by (nonlinear_arith)
                            requires
                                a <= (u64::MAX - dv) / 10,
                                dv <= 9,
                        ;
                    }
                    Some(a * 10 + dv)
                } else {
                    proof {
                        assert(a * 10 + dv > u64::MAX) by (nonlinear_arith)
                            requires
                                a > (u64::MAX - dv) / 10,
                                dv <= 9,
                        ;
                    }
                    None
                }
            },
            None => {
                proof {
                    assert(digits_val(pre) * 10 + dv > u64::MAX);
                }
                None
            },
        };
        j = j + 1;
    }
    acc
}

/// A run of digits starting at `i`, followed immediately by the literal `lit`.
pub open spec fn run_lit_at(s: Seq<char>, i: int, lit: Seq<char>) -> bool {
    &&& 0 <= i < s.len()
    &&& is_digit(s[i])
    &&& lit_at(s, digits_end(s, i), lit)
}

/// The memory-context header pattern
/// `<digits> allocs, <digits> bytes were not free` matches at position `i`.
pub open spec fn header_match_at(s: Seq<char>, i: int) -> bool {
    &&& run_lit_at(s, i, " allocs, "@)
    &&& run_lit_at(s, digits_end(s, i) + " allocs, "@.len(), " bytes were not free"@)
}

/// Leftmost position at or after `i` where the header pattern matches.
pub open spec fn find_header_from(s: Seq<char>, i: int) -> Option<int>
    decreases s.len() - i,
{
    if i < 0 || i >= s.len() {
        None
    } else if header_match_at(s, i) {
        Some(i)
    } else {
        find_header_from(s, i + 1)
    }
}

/// Leftmost match of the memory-context header pattern.
pub open spec fn find_header(s: Seq<char>) -> Option<int> {
    find_header_from(s, 0)
}

/// The in-use byte-count pattern `<digits> bytes` matches at position `i`.
pub open spec fn bytes_match_at(s: Seq<char>, i: int) -> bool {
    run_lit_at(s, i, " bytes"@)
}

/// Leftmost position at or after `i` where the byte-count pattern matches.
pub open spec fn find_bytes_from(s: Seq<char>, i: int) -> Option<int>
    decreases s.len() - i,
{
    if i < 0 || i >= s.len() {
        None
    } else if bytes_match_at(s, i) {
        Some(i)
    } else {
        find_bytes_from(s, i + 1)
    }
}

/// Leftmost match of the in-use byte-count pattern.
pub open spec fn find_bytes_field(s: Seq<char>) -> Option<int> {
    find_bytes_from(s, 0)
}

/// First captured number of the header pattern matching at `i`.
pub open spec fn header_allocs(s: Seq<char>, i: int) -> int {
    digits_val(s.subrange(i, digits_end(s, i)))
}

/// Second captured number of the header pattern matching at `i`.
pub open spec fn header_bytes(s: Seq<char>, i: int) -> int {
    let j = digits_end(s, i) + " allocs, "@.len();
    digits_val(s.subrange(j, digits_end(s, j)))
}

/// Number captured by the byte-count pattern matching at `i`.
pub open spec fn bytes_field_val(s: Seq<char>, i: int) -> int {
    digits_val(s.subrange(i, digits_end(s, i)))
}

fn run_lit_at_exec(s: &str, i: usize, lit: &str) -> (r: bool)
    requires
        i <= s@.len(),
    ensures
        r == run_lit_at(s@, i as int, lit@),
{
    let n: usize = s.unicode_len();
    if i >= n {
        return false;
    }
    if !is_digit_exec(s.get_char(i)) {
        return false;
    }
    let k: usize = digits_end_exec(s, i);
    lit_at_exec(s, k, lit)
}

fn header_at_exec(s: &str, i: usize) -> (r: bool)
    requires
        i <= s@.len(),
    ensures
        r == header_match_at(s@, i as int),
{
    if !run_lit_at_exec(s, i, " allocs, ") {
        return false;
    }
    let n: usize = s.unicode_len();
    let k: usize = digits_end_exec(s, i);
    let la: usize = " allocs, ".unicode_len();
    assert(k + la <= n);
    run_lit_at_exec(s, k + la, " bytes were not free")
}

/// Leftmost match of the memory-context header pattern, executable.
fn find_header_exec(s: &str) -> (r: Option<usize>)
    ensures
        match r {
            Some(i) => {
                &&& find_header(s@) == Some(i as int)
                &&& i < s@.len()
                &&& header_match_at(s@, i as int)
            },
            None => find_header(s@) is None,
        },
{
    let n: usize = s.unicode_len();
    let mut i: usize = 0;
    while i < n
        invariant
            0 <= i <= n,
            n == s@.len(),
            find_header(s@) == find_header_from(s@, i as int),
        decreases n - i,
    {
        if header_at_exec(s, i) {
            return Some(i);
        }
        assert(find_header_from(s@, i as int) == find_header_from(s@, i + 1));
        i = i + 1;
    }
    None
}

/// Leftmost match of the in-use byte-count pattern, executable.
fn find_bytes_exec(s: &str) -> (r: Option<usize>)
    ensures
        match r {
            Some(i) => {
                &&& find_bytes_field(s@) == Some(i as int)
                &&& i < s@.len()
                &&& bytes_match_at(s@, i as int)
            },
            None => find_bytes_field(s@) is None,
        },
{
    let n: usize = s.unicode_len();
    let mut i: usize = 0;
    while i < n
        invariant
            0 <= i <= n,
            n == s@.len(),
            find_bytes_field(s@) == find_bytes_from(s@, i as int),
        decreases n - i,
    {
        if run_lit_at_exec(s, i, " bytes") {
            return Some(i);
        }
        assert(find_bytes_from(s@, i as int) == find_bytes_from(s@, i + 1));
        i = i + 1;
    }
    None
}

/// Both numbers captured by the leftmost header match, or `None` when the
/// pattern does not occur; a captured number that does not fit in a `u64`
/// yields `Some((i, None, _))` or `Some((i, _, None))`.
pub fn capture_header(s: &str) -> (r: Option<(Option<u64>, Option<u64>)>)
    ensures
        match r {
            Some((a, b)) => {
                &&& find_header(s@) is Some
                &&& {
                    let i = find_header(s@)->Some_0;
                    &&& match a {
                        Some(v) => v == header_allocs(s@, i),
                        None => header_allocs(s@, i) > u64::MAX,
                    }
                    &&& match b {
                        Some(v) => v == header_bytes(s@, i),
                        None => header_bytes(s@, i) > u64::MAX,
                    }
                }
            },
            None => find_header(s@) is None,
        },
{
    let found = find_header_exec(s);
    match found {
        None => None,
        Some(i) => {
            let k: usize = digits_end_exec(s, i);
            proof {
                lemma_digits_end(s@, i as int);
            }
            let a = parse_digits(s, i, k);
            let n: usize = s.unicode_len();
            let la: usize = " allocs, ".unicode_len();
            assert(k + la <= n);
            let j: usize = k + la;
            let m: usize = digits_end_exec(s, j);
            proof {
                lemma_digits_end(s@, j as int);
            }
            let b = parse_digits(s, j, m);
            Some((a, b))
        },
    }
}

/// The number captured by the leftmost byte-count match, or `None` when the
/// pattern does not occur; `Some(None)` when it does not fit in a `u64`.
pub fn capture_bytes_field(s: &str) -> (r: Option<Option<u64>>)
    ensures
        match r {
            Some(b) => {
                &&& find_bytes_field(s@) is Some
                &&& match b {
                    Some(v) => v == bytes_field_val(s@, find_bytes_field(s@)->Some_0),
                    None => bytes_field_val(s@, find_bytes_field(s@)->Some_0) > u64::MAX,
                }
            },
            None => find_bytes_field(s@) is None,
        },
{
    let found = find_bytes_exec(s);
    match found {
        None => None,
        Some(i) => {
            let k: usize = digits_end_exec(s, i);
            proof {
                lemma_digits_end(s@, i as int);
            }
            Some(parse_digits(s, i, k))
        },
    }
}

/// The decimal rendering of a non-negative number, most significant digit
/// first and without leading zeros.
pub open spec fn dec_str(n: int) -> Seq<char>
    decreases n,
{
    if n < 0 {
        Seq::empty()
    } else if n < 10 {
        seq![dec_digit(n)]
    } else {
        dec_str(n / 10).push(dec_digit(n % 10))
    }
}

/// The digit character for a value between 0 and 9.
pub open spec fn dec_digit(d: int) -> char {
    if d == 0 {
        '0'
    } else if d == 1 {
        '1'
    } else if d == 2 {
        '2'
    } else if d == 3 {
        '3'
    } else if d == 4 {
        '4'
    } else if d == 5 {
        '5'
    } else if d == 6 {
        '6'
    } else if d == 7 {
        '7'
    } else if d == 8 {
        '8'
    } else {
        '9'
    }
}

/// Relies on the standard library's `Display` implementation for `u32`,
/// which renders the value in decimal: most significant digit first, no
/// sign, no padding, no separators.
#[verifier::external_body]
pub fn u32_to_string(x: u32) -> (r: String)
    ensures
        r@ == dec_str(x as int),
{
    format!("{}", x)
}

} // verus!
