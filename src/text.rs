//! Character-level helpers over instance identifiers: normalization, family and
//! size segments, substring search, ordering and decimal rendering.
use vstd::prelude::*;

verus! {

/// The position of the last '.' strictly before `end`, or -1 when there is none.
pub open spec fn last_dot_before(s: Seq<char>, end: int) -> int
    decreases end,
{
    if end <= 0 {
        -1
    } else if s[end - 1] == '.' {
        end - 1
    } else {
        last_dot_before(s, end - 1)
    }
}

/// The canonical `family.size` form of a dotted identifier: everything after
/// the second-to-last '.', or the whole string when it has fewer than two dots.
pub open spec fn normalized(s: Seq<char>) -> Seq<char> {
    let last = last_dot_before(s, s.len() as int);
    if last < 0 {
        s
    } else {
        let second = last_dot_before(s, last);
        if second < 0 {
            s
        } else {
            s.subrange(second + 1, s.len() as int)
        }
    }
}

proof fn lemma_last_dot_range(s: Seq<char>, end: int)
    requires
        0 <= end <= s.len(),
    ensures
        -1 <= last_dot_before(s, end) < end,
        last_dot_before(s, end) >= 0 ==> s[last_dot_before(s, end)] == '.',
    decreases end,
{
    if end > 0 && s[end - 1] != '.' {
        lemma_last_dot_range(s, end - 1);
    }
}

/// Position of the last '.' in `s` before `end`.
fn rfind_dot(s: &str, end: usize) -> (r: Option<usize>)
    requires
        end <= s@.len(),
    ensures
        r matches Some(i) ==> i as int == last_dot_before(s@, end as int),
        r is None ==> last_dot_before(s@, end as int) == -1,
{
    let mut i: usize = end;
    while i > 0
        invariant
            i <= end <= s@.len(),
            last_dot_before(s@, end as int) == last_dot_before(s@, i as int),
        decreases i,
    {
        if s.get_char(i - 1) == '.' {
            return Some(i - 1);
        }
        i = i - 1;
    }
    None
}

/// Reduces a composite price-table identifier such as
/// `generalCurrentGen.m5.large` to its `family.size` form (`m5.large`).
pub fn normalize(composite: &str) -> (r: String)
    ensures
        r@ == normalized(composite@),
{
    let n = composite.unicode_len();
    match rfind_dot(composite, n) {
        None => String::from_str(composite),
        Some(last) => {
            proof {
                lemma_last_dot_range(composite@, n as int);
            }
            match rfind_dot(composite, last) {
                None => String::from_str(composite),
                Some(second) => {
                    proof {
                        lemma_last_dot_range(composite@, last as int);
                    }
                    String::from_str(composite.substring_char(second + 1, n))
                },
            }
        },
    }
}

/// The position of the first '.' at or after `start`, or the length when there is none.
pub open spec fn first_dot_from(s: Seq<char>, start: int) -> int
    decreases s.len() - start,
{
    if start >= s.len() {
        s.len() as int
    } else if s[start] == '.' {
        start
    } else {
        first_dot_from(s, start + 1)
    }
}

proof fn lemma_first_dot_range(s: Seq<char>, start: int)
    requires
        0 <= start <= s.len(),
    ensures
        start <= first_dot_from(s, start) <= s.len(),
    decreases s.len() - start,
{
    if start < s.len() && s[start] != '.' {
        lemma_first_dot_range(s, start + 1);
    }
}

/// The family of an identifier: its first '.'-separated segment.
pub open spec fn family_of(s: Seq<char>) -> Seq<char> {
    s.subrange(0, first_dot_from(s, 0))
}

/// The size of an identifier: its second '.'-separated segment, empty when
/// there is no second segment.
pub open spec fn size_of(s: Seq<char>) -> Seq<char> {
    let d = first_dot_from(s, 0);
    if d >= s.len() {
        Seq::empty()
    } else {
        s.subrange(d + 1, first_dot_from(s, d + 1))
    }
}

/// Whether `f` occurs in `s` as a contiguous run.
pub open spec fn contains_seq(s: Seq<char>, f: Seq<char>) -> bool {
    exists|i: int| 0 <= i && i + f.len() <= s.len() && #[trigger] s.subrange(i, i + f.len()) == f
}

/// Position of the first '.' in `s` at or after `start`.
fn find_dot(s: &str, start: usize, n: usize) -> (r: usize)
    requires
        n == s@.len(),
        start <= n,
    ensures
        r as int == first_dot_from(s@, start as int),
        start <= r <= n,
{
    proof {
        lemma_first_dot_range(s@, start as int);
    }
    let mut i: usize = start;
    while i < n
        invariant
            start <= i <= n == s@.len(),
            first_dot_from(s@, start as int) == first_dot_from(s@, i as int),
        decreases n - i,
    {
        if s.get_char(i) == '.' {
            return i;
        }
        i = i + 1;
    }
    i
}

/// Whether two strings hold the same characters.
pub fn same_text(a: &str, b: &str) -> (r: bool)
    ensures
        r == (a@ == b@),
{
    let x = String::from_str(a);
    let y = String::from_str(b);
    x == y
}

/// Whether `f` occurs in `s` as a substring.
pub fn contains_text(s: &str, f: &str) -> (r: bool)
    ensures
        r == contains_seq(s@, f@),
{
    let n = s.unicode_len();
    let m = f.unicode_len();
    if m > n {
        return false;
    }
    let mut i: usize = 0;
    loop
        invariant
            m <= n,
            n == s@.len(),
            m == f@.len(),
            i <= n - m,
            forall|k: int| 0 <= k < i ==> #[trigger] s@.subrange(k, k + m) != f@,
        decreases n - m - i,
    {
        if same_text(s.substring_char(i, i + m), f) {
            return true;
        }
        if i == n - m {
            return false;
        }
        i = i + 1;
    }
}

/// The family segment of an identifier.
pub fn family(s: &str) -> (r: String)
    ensures
        r@ == family_of(s@),
{
    let n = s.unicode_len();
    let d = find_dot(s, 0, n);
    String::from_str(s.substring_char(0, d))
}

/// The size segment of an identifier (empty when absent).
pub fn size(s: &str) -> (r: String)
    ensures
        r@ == size_of(s@),
{
    let n = s.unicode_len();
    let d = find_dot(s, 0, n);
    if d >= n {
        String::new()
    } else {
        let e = find_dot(s, d + 1, n);
        String::from_str(s.substring_char(d + 1, e))
    }
}

/// Lexicographic order by character code from position `i` on; a proper
/// prefix comes first.
pub open spec fn lt_from(a: Seq<char>, b: Seq<char>, i: int) -> bool
    decreases a.len() - i,
{
    if i >= a.len() {
        i < b.len()
    } else if i >= b.len() {
        false
    } else if a[i] != b[i] {
        (a[i] as int) < (b[i] as int)
    } else {
        lt_from(a, b, i + 1)
    }
}

/// Lexicographic order on identifiers. Comparing characters by code gives the
/// same order as comparing their UTF-8 encodings byte by byte.
pub open spec fn text_lt(a: Seq<char>, b: Seq<char>) -> bool {
    lt_from(a, b, 0)
}

proof fn lemma_lt_from_trans(a: Seq<char>, b: Seq<char>, c: Seq<char>, i: int)
    requires
        0 <= i,
        lt_from(a, b, i),
        lt_from(b, c, i),
    ensures
        lt_from(a, c, i),
    decreases a.len() - i,
{
    if i < a.len() && i < b.len() && i < c.len() && a[i] == b[i] && b[i] == c[i] {
        lemma_lt_from_trans(a, b, c, i + 1);
    }
}

proof fn lemma_lt_from_irrefl(a: Seq<char>, i: int)
    requires
        0 <= i,
    ensures
        !lt_from(a, a, i),
    decreases a.len() - i,
{
    if i < a.len() {
        lemma_lt_from_irrefl(a, i + 1);
    }
}

proof fn lemma_lt_from_total(a: Seq<char>, b: Seq<char>, i: int)
    requires
        0 <= i <= a.len(),
        i <= b.len(),
        a.subrange(0, i) == b.subrange(0, i),
        !lt_from(a, b, i),
        !lt_from(b, a, i),
    ensures
        a == b,
    decreases a.len() - i,
{
    if i < a.len() && i < b.len() {
        assert(a[i] == b[i]) by {
            if a[i] != b[i] {
                assert((a[i] as int) != (b[i] as int));
            }
        }
        assert(a.subrange(0, i + 1) =~= a.subrange(0, i).push(a[i]));
        assert(b.subrange(0, i + 1) =~= b.subrange(0, i).push(b[i]));
        lemma_lt_from_total(a, b, i + 1);
    } else {
        assert(a =~= a.subrange(0, i));
        assert(b =~= b.subrange(0, i));
    }
}

/// The identifier order is a strict total order.
pub proof fn lemma_text_order(a: Seq<char>, b: Seq<char>, c: Seq<char>)
    ensures
        !text_lt(a, a),
        text_lt(a, b) && text_lt(b, c) ==> text_lt(a, c),
        a != b ==> text_lt(a, b) || text_lt(b, a),
{
    lemma_lt_from_irrefl(a, 0);
    if text_lt(a, b) && text_lt(b, c) {
        lemma_lt_from_trans(a, b, c, 0);
    }
    if !text_lt(a, b) && !text_lt(b, a) {
        assert(a.subrange(0, 0) =~= b.subrange(0, 0));
        lemma_lt_from_total(a, b, 0);
    }
}

/// Whether `a` comes strictly before `b` in identifier order.
pub fn text_less(a: &str, b: &str) -> (r: bool)
    ensures
        r == text_lt(a@, b@),
{
    let n = a.unicode_len();
    let m = b.unicode_len();
    let mut i: usize = 0;
    while i < n && i < m
        invariant
            n == a@.len(),
            m == b@.len(),
            i <= n,
            i <= m,
            lt_from(a@, b@, 0) == lt_from(a@, b@, i as int),
        decreases n - i,
    {
        let x = a.get_char(i);
        let y = b.get_char(i);
        if x != y {
            return (x as u32) < (y as u32);
        }
        i = i + 1;
    }
    i < m
}

/// The decimal digit character for `d`.
pub open spec fn digit_char(d: nat) -> char {
    if d == 0 {
        '0'
    } else if d == 1 {
        '1'
    } else if d == 2 {
        '2'
    } else if d == 3 {
        '3'
    } else if d == 4 {
        '4'
    } else if d == 5 {
        '5'
    } else if d == 6 {
        '6'
    } else if d == 7 {
        '7'
    } else if d == 8 {
        '8'
    } else {
        '9'
    }
}

/// The decimal text of a natural number, without leading zeros.
pub open spec fn decimal(n: nat) -> Seq<char>
    decreases n,
{
    if n < 10 {
        seq![digit_char(n)]
    } else {
        decimal(n / 10).push(digit_char(n % 10))
    }
}

fn digit_text(d: u64) -> (r: String)
    requires
        d < 10,
    ensures
        r@ == seq![digit_char(d as nat)],
{
    let digits = "0123456789";
    proof {
        reveal_strlit("0123456789");
    }
    let r = String::from_str(digits.substring_char(d as usize, d as usize + 1));
    assert(r@ =~= seq![digit_char(d as nat)]);
    r
}

/// Renders `n` in decimal.
pub fn decimal_text(n: u64) -> (r: String)
    ensures
        r@ == decimal(n as nat),
    decreases n,
{
    if n < 10 {
        digit_text(n)
    } else {
        let mut r = decimal_text(n / 10);
        let d = digit_text(n % 10);
        r.append(d.as_str());
        r
    }
}

} // verus!
