//! Character-level text helpers that the parsers are built from.
//!
//! Every helper works on the characters of a line (`Seq<char>` in the
//! contracts, `&[char]` at run time) and is specified by a spec function of
//! the same name, so that the parsers can state their results in terms of
//! positions, prefixes and searches.
use vstd::prelude::*;
use vstd::string::*;

verus! {

broadcast use vstd::string::group_string_axioms;

// ---------------------------------------------------------------------------
// Character classes
// ---------------------------------------------------------------------------

/// `char::is_ascii_digit`.
pub open spec fn is_digit(c: char) -> bool {
    '0' <= c && c <= '9'
}

/// `char::is_ascii_hexdigit`.
pub open spec fn is_hex(c: char) -> bool {
    ('0' <= c && c <= '9') || ('a' <= c && c <= 'f') || ('A' <= c && c <= 'F')
}

/// `char::is_ascii_alphabetic`.
pub open spec fn is_alpha(c: char) -> bool {
    ('a' <= c && c <= 'z') || ('A' <= c && c <= 'Z')
}

/// `char::is_ascii_alphanumeric`.
pub open spec fn is_alnum(c: char) -> bool {
    is_alpha(c) || is_digit(c)
}

/// `char::is_whitespace`: the characters with the Unicode `White_Space`
/// property.
pub open spec fn is_white(c: char) -> bool {
    let n = c as u32;
    n == 0x20 || (0x09 <= n && n <= 0x0d) || n == 0x85 || n == 0xa0 || n == 0x1680
        || (0x2000 <= n && n <= 0x200a) || n == 0x2028 || n == 0x2029 || n == 0x202f
        || n == 0x205f || n == 0x3000
}

/// `char::to_ascii_lowercase`.
pub open spec fn lower_char(c: char) -> char {
    if 'A' <= c && c <= 'Z' {
        ((c as u32) + 32) as char
    } else {
        c
    }
}

/// `char::to_ascii_uppercase`.
pub open spec fn upper_char(c: char) -> char {
    if 'a' <= c && c <= 'z' {
        ((c as u32) - 32) as char
    } else {
        c
    }
}

/// `str::to_ascii_lowercase`.
pub open spec fn ascii_lower(s: Seq<char>) -> Seq<char> {
    s.map_values(|c: char| lower_char(c))
}

/// `str::to_ascii_uppercase`.
pub open spec fn ascii_upper(s: Seq<char>) -> Seq<char> {
    s.map_values(|c: char| upper_char(c))
}

/// `str::eq_ignore_ascii_case`.
pub open spec fn eq_ignore_case(a: Seq<char>, b: Seq<char>) -> bool {
    ascii_lower(a) == ascii_lower(b)
}

/// Every character of `s` is an ASCII digit.
pub open spec fn all_digits(s: Seq<char>) -> bool {
    forall|i: int| 0 <= i < s.len() ==> #[trigger] is_digit(s[i])
}

pub fn is_digit_exec(c: char) -> (r: bool)
    ensures
        r == is_digit(c),
{
    '0' <= c && c <= '9'
}

pub fn is_hex_exec(c: char) -> (r: bool)
    ensures
        r == is_hex(c),
{
    ('0' <= c && c <= '9') || ('a' <= c && c <= 'f') || ('A' <= c && c <= 'F')
}

pub fn is_alpha_exec(c: char) -> (r: bool)
    ensures
        r == is_alpha(c),
{
    ('a' <= c && c <= 'z') || ('A' <= c && c <= 'Z')
}

pub fn is_alnum_exec(c: char) -> (r: bool)
    ensures
        r == is_alnum(c),
{
    is_alpha_exec(c) || is_digit_exec(c)
}

pub fn is_white_exec(c: char) -> (r: bool)
    ensures
        r == is_white(c),
{
    let n = c as u32;
    n == 0x20 || (0x09 <= n && n <= 0x0d) || n == 0x85 || n == 0xa0 || n == 0x1680 || (0x2000
        <= n && n <= 0x200a) || n == 0x2028 || n == 0x2029 || n == 0x202f || n == 0x205f || n
        == 0x3000
}

pub fn lower_char_exec(c: char) -> (r: char)
    ensures
        r == lower_char(c),
{
    if 'A' <= c && c <= 'Z' {
        let n = (c as u32) + 32;
        assert(n < 128);
        (n as u8) as char
    } else {
        c
    }
}

pub fn upper_char_exec(c: char) -> (r: char)
    ensures
        r == upper_char(c),
{
    if 'a' <= c && c <= 'z' {
        let n = (c as u32) - 32;
        assert(n < 128);
        (n as u8) as char
    } else {
        c
    }
}

// ---------------------------------------------------------------------------
// Strings and characters
// ---------------------------------------------------------------------------

/// The characters of `s`, in order.
pub fn chars_of(s: &str) -> (r: Vec<char>)
    ensures
        r@ == s@,
{
    let mut r: Vec<char> = Vec::new();
    for c in it: s.chars()
        invariant
            it.seq() == s@,
            r@ == it.seq().take(it.index()),
    {
        r.push(c);
    }
    r
}

/// `String::from_iter` over characters (std): the string made of exactly
/// these characters.
#[verifier::external_body]
pub(crate) fn string_from(cs: &[char]) -> (r: String)
    ensures
        r@ == cs@,
{
    cs.iter().collect()
}

/// The characters of `s` from `from` up to, not including, `to`.
pub fn slice(s: &[char], from: usize, to: usize) -> (r: Vec<char>)
    requires
        from <= to <= s@.len(),
    ensures
        r@ == s@.subrange(from as int, to as int),
{
    let mut r: Vec<char> = Vec::new();
    let mut i = from;
    while i < to
        invariant
            from <= i <= to <= s@.len(),
            r@ == s@.subrange(from as int, i as int),
        decreases to - i,
    {
        r.push(s[i]);
        i = i + 1;
        assert(r@ =~= s@.subrange(from as int, i as int));
    }
    r
}

/// Appends the characters of `s`.
pub fn append_chars(v: &mut Vec<char>, s: &[char])
    ensures
        final(v)@ == old(v)@ + s@,
{
    let ghost start = v@;
    let mut i: usize = 0;
    while i < s.len()
        invariant
            0 <= i <= s@.len(),
            v@ == start + s@.take(i as int),
        decreases s.len() - i,
    {
        v.push(s[i]);
        i = i + 1;
        assert(v@ =~= start + s@.take(i as int));
    }
    assert(s@.take(s@.len() as int) =~= s@);
}

/// The characters of `s` from `from` up to, not including, `to`, as a string.
pub fn text(s: &[char], from: usize, to: usize) -> (r: String)
    requires
        from <= to <= s@.len(),
    ensures
        r@ == s@.subrange(from as int, to as int),
{
    let v = slice(s, from, to);
    string_from(v.as_slice())
}

/// `str::to_ascii_lowercase`, as a new vector of characters.
pub fn lower_ascii(s: &[char]) -> (r: Vec<char>)
    ensures
        r@ == ascii_lower(s@),
{
    let mut r: Vec<char> = Vec::new();
    let mut i: usize = 0;
    while i < s.len()
        invariant
            0 <= i <= s@.len(),
            r@ == ascii_lower(s@.take(i as int)),
        decreases s.len() - i,
    {
        r.push(lower_char_exec(s[i]));
        i = i + 1;
        assert(r@ =~= ascii_lower(s@.take(i as int)));
    }
    assert(s@.take(s@.len() as int) =~= s@);
    r
}

/// `str::to_ascii_uppercase`, as a new vector of characters.
pub fn upper_ascii(s: &[char]) -> (r: Vec<char>)
    ensures
        r@ == ascii_upper(s@),
{
    let mut r: Vec<char> = Vec::new();
    let mut i: usize = 0;
    while i < s.len()
        invariant
            0 <= i <= s@.len(),
            r@ == ascii_upper(s@.take(i as int)),
        decreases s.len() - i,
    {
        r.push(upper_char_exec(s[i]));
        i = i + 1;
        assert(r@ =~= ascii_upper(s@.take(i as int)));
    }
    assert(s@.take(s@.len() as int) =~= s@);
    r
}

/// Whether two character sequences are equal.
pub fn same(a: &[char], b: &[char]) -> (r: bool)
    ensures
        r == (a@ == b@),
{
    if a.len() != b.len() {
        return false;
    }
    let mut i: usize = 0;
    while i < a.len()
        invariant
            a@.len() == b@.len(),
            0 <= i <= a@.len(),
            forall|k: int| 0 <= k < i ==> a@[k] == b@[k],
        decreases a.len() - i,
    {
        if a[i] != b[i] {
            return false;
        }
        i = i + 1;
    }
    assert(a@ =~= b@);
    true
}

/// Whether the characters of `a` equal those of the string `b`.
pub fn same_str(a: &[char], b: &str) -> (r: bool)
    ensures
        r == (a@ == b@),
{
    let bs = chars_of(b);
    same(a, bs.as_slice())
}

/// `str::eq_ignore_ascii_case`.
pub fn eq_ignore_case_exec(a: &[char], b: &[char]) -> (r: bool)
    ensures
        r == eq_ignore_case(a@, b@),
{
    let la = lower_ascii(a);
    let lb = lower_ascii(b);
    same(la.as_slice(), lb.as_slice())
}

// ---------------------------------------------------------------------------
// Searching
// ---------------------------------------------------------------------------

/// `pat` occurs in `s` starting at position `i`.
pub open spec fn matches_at(s: Seq<char>, pat: Seq<char>, i: int) -> bool {
    0 <= i && i + pat.len() <= s.len() && s.subrange(i, i + pat.len()) == pat
}

/// The first position at or after `i` where `pat` occurs in `s`.
pub open spec fn find_from(s: Seq<char>, pat: Seq<char>, i: int) -> Option<int>
    decreases s.len() - i,
{
    if i < 0 || i + pat.len() > s.len() {
        None
    } else if pat.len() == 0 || matches_at(s, pat, i) {
        Some(i)
    } else {
        find_from(s, pat, i + 1)
    }
}

/// `str::find`: the first position where `pat` occurs in `s`.
pub open spec fn find(s: Seq<char>, pat: Seq<char>) -> Option<int> {
    find_from(s, pat, 0)
}

/// `str::contains`.
pub open spec fn contains(s: Seq<char>, pat: Seq<char>) -> bool {
    find(s, pat) is Some
}

/// `str::starts_with`.
pub open spec fn starts_with(s: Seq<char>, pat: Seq<char>) -> bool {
    pat.len() <= s.len() && s.take(pat.len() as int) == pat
}

/// `str::ends_with`.
pub open spec fn ends_with(s: Seq<char>, pat: Seq<char>) -> bool {
    pat.len() <= s.len() && s.skip(s.len() - pat.len()) == pat
}

/// The first position at or after `i` that holds `c`.
pub open spec fn find_char_from(s: Seq<char>, c: char, i: int) -> Option<int>
    decreases s.len() - i,
{
    if i < 0 || i >= s.len() {
        None
    } else if s[i] == c {
        Some(i)
    } else {
        find_char_from(s, c, i + 1)
    }
}

/// `str::find` with a single character.
pub open spec fn find_char(s: Seq<char>, c: char) -> Option<int> {
    find_char_from(s, c, 0)
}

/// The last position before `end` that holds `c`.
pub open spec fn rfind_char_before(s: Seq<char>, c: char, end: int) -> Option<int>
    decreases end,
{
    if end <= 0 || end > s.len() {
        None
    } else if s[end - 1] == c {
        Some(end - 1)
    } else {
        rfind_char_before(s, c, end - 1)
    }
}

/// `str::rfind` with a single character.
pub open spec fn rfind_char(s: Seq<char>, c: char) -> Option<int> {
    rfind_char_before(s, c, s.len() as int)
}

/// The spec value of a position found at run time.
pub open spec fn opt_int(r: Option<usize>) -> Option<int> {
    match r {
        Some(i) => Some(i as int),
        None => None,
    }
}

pub proof fn lemma_find_from_bounds(s: Seq<char>, pat: Seq<char>, i: int)
    ensures
        find_from(s, pat, i) matches Some(j) ==> i <= j && j + pat.len() <= s.len() && matches_at(
            s,
            pat,
            j,
        ),
    decreases s.len() - i,
{
    if i < 0 || i + pat.len() > s.len() {
    } else if pat.len() == 0 || matches_at(s, pat, i) {
        if pat.len() == 0 {
            assert(s.subrange(i, i + pat.len()) =~= pat);
        }
    } else {
        lemma_find_from_bounds(s, pat, i + 1);
    }
}

pub proof fn lemma_find_char_from_bounds(s: Seq<char>, c: char, i: int)
    requires
        0 <= i,
    ensures
        find_char_from(s, c, i) matches Some(j) ==> i <= j < s.len() && s[j] == c,
        find_char_from(s, c, i) is None ==> forall|k: int| i <= k < s.len() ==> s[k] != c,
    decreases s.len() - i,
{
    if i < 0 || i >= s.len() {
    } else if s[i] == c {
    } else {
        lemma_find_char_from_bounds(s, c, i + 1);
    }
}

pub proof fn lemma_rfind_char_bounds(s: Seq<char>, c: char, end: int)
    ensures
        rfind_char_before(s, c, end) matches Some(j) ==> 0 <= j < end && j < s.len() && s[j] == c,
    decreases end,
{
    if end <= 0 || end > s.len() {
    } else if s[end - 1] == c {
    } else {
        lemma_rfind_char_bounds(s, c, end - 1);
    }
}

/// Whether `pat` occurs in `s` at position `i`.
pub fn matches_at_exec(s: &[char], pat: &[char], i: usize) -> (r: bool)
    ensures
        r == matches_at(s@, pat@, i as int),
{
    if pat.len() > s.len() || i > s.len() - pat.len() {
        return false;
    }
    let mut k: usize = 0;
    while k < pat.len()
        invariant
            i + pat@.len() <= s@.len(),
            i + pat.len() <= s.len(),
            0 <= k <= pat@.len(),
            forall|j: int| 0 <= j < k ==> s@[i + j] == pat@[j],
        decreases pat.len() - k,
    {
        assert(i + k < s@.len());
        let j = i + k;
        if s[j] != pat[k] {
            assert(s@.subrange(i as int, i + pat@.len())[k as int] != pat@[k as int]);
            return false;
        }
        k = k + 1;
    }
    assert(s@.subrange(i as int, i + pat@.len()) =~= pat@);
    true
}

/// `str::find` from a starting position.
pub fn find_from_exec(s: &[char], pat: &[char], from: usize) -> (r: Option<usize>)
    ensures
        opt_int(r) == find_from(s@, pat@, from as int),
{
    if pat.len() > s.len() {
        return None;
    }
    let last = s.len() - pat.len();
    let mut i = from;
    while i <= last
        invariant
            last + pat@.len() == s@.len(),
            from <= i,
            find_from(s@, pat@, from as int) == find_from(s@, pat@, i as int),
        decreases last + 1 - i,
    {
        if pat.len() == 0 || matches_at_exec(s, pat, i) {
            return Some(i);
        }
        if i == last {
            assert(find_from(s@, pat@, i + 1) is None);
            return None;
        }
        i = i + 1;
    }
    None
}

/// `str::find`.
pub fn find_exec(s: &[char], pat: &[char]) -> (r: Option<usize>)
    ensures
        opt_int(r) == find(s@, pat@),
{
    find_from_exec(s, pat, 0)
}

/// `str::find` with a pattern given as a string.
pub fn find_str(s: &[char], pat: &str) -> (r: Option<usize>)
    ensures
        opt_int(r) == find(s@, pat@),
{
    let p = chars_of(pat);
    find_exec(s, p.as_slice())
}

/// `str::contains` with a pattern given as a string.
pub fn contains_str(s: &[char], pat: &str) -> (r: bool)
    ensures
        r == contains(s@, pat@),
{
    find_str(s, pat).is_some()
}

/// `str::starts_with`.
pub fn starts_with_exec(s: &[char], pat: &[char]) -> (r: bool)
    ensures
        r == starts_with(s@, pat@),
{
    if pat.len() > s.len() {
        return false;
    }
    let r = matches_at_exec(s, pat, 0);
    assert(s@.subrange(0, pat@.len() as int) =~= s@.take(pat@.len() as int));
    r
}

/// `str::starts_with` with a pattern given as a string.
pub fn starts_with_str(s: &[char], pat: &str) -> (r: bool)
    ensures
        r == starts_with(s@, pat@),
{
    let p = chars_of(pat);
    starts_with_exec(s, p.as_slice())
}

/// `str::find` with a single character, from a starting position.
pub fn find_char_from_exec(s: &[char], c: char, from: usize) -> (r: Option<usize>)
    ensures
        opt_int(r) == find_char_from(s@, c, from as int),
{
    let mut i = from;
    while i < s.len()
        invariant
            from <= i,
            find_char_from(s@, c, from as int) == find_char_from(s@, c, i as int),
        decreases s.len() - i,
    {
        if s[i] == c {
            return Some(i);
        }
        i = i + 1;
    }
    None
}

/// `str::find` with a single character.
pub fn find_char_exec(s: &[char], c: char) -> (r: Option<usize>)
    ensures
        opt_int(r) == find_char(s@, c),
{
    find_char_from_exec(s, c, 0)
}

/// The last position before `end` that holds `c`.
pub fn rfind_char_before_exec(s: &[char], c: char, end: usize) -> (r: Option<usize>)
    requires
        end <= s@.len(),
    ensures
        opt_int(r) == rfind_char_before(s@, c, end as int),
{
    let mut j = end;
    while j > 0
        invariant
            j <= end <= s@.len(),
            rfind_char_before(s@, c, end as int) == rfind_char_before(s@, c, j as int),
        decreases j,
    {
        if s[j - 1] == c {
            return Some(j - 1);
        }
        j = j - 1;
    }
    None
}

/// The position of the `n`-th (counting from 1) `c` at or after `i`.
pub open spec fn nth_char_from(s: Seq<char>, c: char, i: int, n: nat) -> Option<int>
    decreases n, s.len() - i,
{
    if n == 0 {
        None
    } else {
        match find_char_from(s, c, i) {
            None => None,
            Some(p) => if n == 1 {
                Some(p)
            } else if p + 1 > i {
                nth_char_from(s, c, p + 1, (n - 1) as nat)
            } else {
                None
            },
        }
    }
}

pub proof fn lemma_nth_char_from(s: Seq<char>, c: char, i: int, n: nat)
    requires
        0 <= i,
    ensures
        nth_char_from(s, c, i, n) matches Some(p) ==> i <= p < s.len(),
        n >= 1 && nth_char_from(s, c, i, n + 1) is Some ==> nth_char_from(s, c, i, n) is Some
            && nth_char_from(s, c, i, n).unwrap() < nth_char_from(s, c, i, n + 1).unwrap(),
    decreases n, s.len() - i,
{
    lemma_find_char_from_bounds(s, c, i);
    if n >= 1 {
        match find_char_from(s, c, i) {
            None => {},
            Some(p) => {
                if n == 1 {
                    lemma_nth_char_from(s, c, p + 1, 1);
                } else {
                    lemma_nth_char_from(s, c, p + 1, (n - 1) as nat);
                }
            },
        }
    }
}

/// Finds the `n`-th `c` at or after `from`.
pub fn nth_char_from_exec(s: &[char], c: char, from: usize, n: usize) -> (r: Option<usize>)
    ensures
        opt_int(r) == nth_char_from(s@, c, from as int, n as nat),
    decreases n,
{
    if n == 0 {
        return None;
    }
    match find_char_from_exec(s, c, from) {
        None => None,
        Some(p) => {
            proof {
                lemma_find_char_from_bounds(s@, c, from as int);
                assert(p < s.len());
            }
            if n == 1 {
                Some(p)
            } else {
                nth_char_from_exec(s, c, p + 1, n - 1)
            }
        },
    }
}

/// Earlier occurrences come first.
pub proof fn lemma_nth_pos_ordered(s: Seq<char>, c: char, a: nat, b: nat)
    requires
        1 <= a <= b,
        nth_char_from(s, c, 0, b) is Some,
    ensures
        nth_char_from(s, c, 0, a) is Some,
        nth_char_from(s, c, 0, a).unwrap() <= nth_char_from(s, c, 0, b).unwrap(),
    decreases b - a,
{
    if a < b {
        lemma_nth_char_from(s, c, 0, (b - 1) as nat);
        lemma_nth_pos_ordered(s, c, a, (b - 1) as nat);
    }
}

// ---------------------------------------------------------------------------
// White space
// ---------------------------------------------------------------------------

/// The first position at or after `i` that is not white space.
pub open spec fn skip_white(s: Seq<char>, i: int) -> int
    decreases s.len() - i,
{
    if 0 <= i < s.len() && is_white(s[i]) {
        skip_white(s, i + 1)
    } else {
        i
    }
}

/// Going back from `j`, but not below `lo`, past white space.
pub open spec fn back_white(s: Seq<char>, lo: int, j: int) -> int
    decreases j - lo,
{
    if lo < j <= s.len() && is_white(s[j - 1]) {
        back_white(s, lo, j - 1)
    } else {
        j
    }
}

/// `str::trim_start`.
pub open spec fn trim_start(s: Seq<char>) -> Seq<char> {
    s.skip(skip_white(s, 0))
}

/// `str::trim`.
pub open spec fn trim(s: Seq<char>) -> Seq<char> {
    let a = skip_white(s, 0);
    s.subrange(a, back_white(s, a, s.len() as int))
}

pub proof fn lemma_skip_white_bounds(s: Seq<char>, i: int)
    requires
        0 <= i <= s.len(),
    ensures
        i <= skip_white(s, i) <= s.len(),
        forall|k: int| i <= k < skip_white(s, i) ==> is_white(#[trigger] s[k]),
        skip_white(s, i) < s.len() ==> !is_white(s[skip_white(s, i)]),
    decreases s.len() - i,
{
    if 0 <= i < s.len() && is_white(s[i]) {
        lemma_skip_white_bounds(s, i + 1);
    }
}

pub proof fn lemma_back_white_bounds(s: Seq<char>, lo: int, j: int)
    requires
        0 <= lo <= j <= s.len(),
    ensures
        lo <= back_white(s, lo, j) <= j,
    decreases j - lo,
{
    if lo < j <= s.len() && is_white(s[j - 1]) {
        lemma_back_white_bounds(s, lo, j - 1);
    }
}

/// The first position at or after `from` that is not white space.
pub fn skip_white_exec(s: &[char], from: usize) -> (r: usize)
    requires
        from <= s@.len(),
    ensures
        r as int == skip_white(s@, from as int),
        from <= r <= s@.len(),
{
    proof {
        lemma_skip_white_bounds(s@, from as int);
    }
    let mut i = from;
    while i < s.len() && is_white_exec(s[i])
        invariant
            from <= i <= s@.len(),
            skip_white(s@, from as int) == skip_white(s@, i as int),
        decreases s.len() - i,
    {
        i = i + 1;
    }
    i
}

/// Going back from `to`, but not below `lo`, past white space.
pub fn back_white_exec(s: &[char], lo: usize, to: usize) -> (r: usize)
    requires
        lo <= to <= s@.len(),
    ensures
        r as int == back_white(s@, lo as int, to as int),
        lo <= r <= to,
{
    let mut j = to;
    while j > lo && is_white_exec(s[j - 1])
        invariant
            lo <= j <= to <= s@.len(),
            back_white(s@, lo as int, to as int) == back_white(s@, lo as int, j as int),
        decreases j - lo,
    {
        j = j - 1;
    }
    j
}

/// The bounds of `str::trim` applied to `s`.
pub fn trim_bounds(s: &[char]) -> (r: (usize, usize))
    ensures
        r.0 <= r.1 <= s@.len(),
        s@.subrange(r.0 as int, r.1 as int) == trim(s@),
{
    let a = skip_white_exec(s, 0);
    let b = back_white_exec(s, a, s.len());
    (a, b)
}

/// `str::trim`, as a new vector of characters.
pub fn trim_exec(s: &[char]) -> (r: Vec<char>)
    ensures
        r@ == trim(s@),
{
    let (a, b) = trim_bounds(s);
    slice(s, a, b)
}


// ---------------------------------------------------------------------------
// Words and byte lengths
// ---------------------------------------------------------------------------

/// The first position at or after `i` that is white space, or the end.
pub open spec fn word_end(s: Seq<char>, i: int) -> int
    decreases s.len() - i,
{
    if 0 <= i < s.len() && !is_white(s[i]) {
        word_end(s, i + 1)
    } else {
        i
    }
}

/// The next word (as `str::split_whitespace` yields it) at or after `i`:
/// its start and end.
pub open spec fn token_at(s: Seq<char>, i: int) -> Option<(int, int)> {
    let a = skip_white(s, i);
    if a < 0 || a >= s.len() {
        None
    } else {
        Some((a, word_end(s, a)))
    }
}

/// The word after the given one.
pub open spec fn next_token(s: Seq<char>, t: Option<(int, int)>) -> Option<(int, int)> {
    match t {
        Some((_, b)) => token_at(s, b),
        None => None,
    }
}

/// The text of a word.
pub open spec fn token_text(s: Seq<char>, t: Option<(int, int)>) -> Option<Seq<char>> {
    match t {
        Some((a, b)) => Some(s.subrange(a, b)),
        None => None,
    }
}

pub proof fn lemma_word_end(s: Seq<char>, i: int)
    requires
        0 <= i <= s.len(),
    ensures
        i <= word_end(s, i) <= s.len(),
    decreases s.len() - i,
{
    if 0 <= i < s.len() && !is_white(s[i]) {
        lemma_word_end(s, i + 1);
    }
}

pub proof fn lemma_token_at(s: Seq<char>, i: int)
    requires
        0 <= i <= s.len(),
    ensures
        token_at(s, i) matches Some((a, b)) ==> i <= a < b <= s.len(),
{
    lemma_skip_white_bounds(s, i);
    let a = skip_white(s, i);
    if 0 <= a < s.len() {
        lemma_word_end(s, a);
        assert(word_end(s, a) == word_end(s, a + 1));
        lemma_word_end(s, a + 1);
    }
}

/// The next word at or after `from`.
pub fn token_at_exec(s: &[char], from: usize) -> (r: Option<(usize, usize)>)
    requires
        from <= s@.len(),
    ensures
        match r {
            Some((a, b)) => token_at(s@, from as int) == Some((a as int, b as int)),
            None => token_at(s@, from as int) is None,
        },
{
    proof {
        lemma_token_at(s@, from as int);
    }
    let a = skip_white_exec(s, from);
    if a >= s.len() {
        return None;
    }
    let mut b = a;
    while b < s.len() && !is_white_exec(s[b])
        invariant
            a <= b <= s@.len(),
            word_end(s@, a as int) == word_end(s@, b as int),
        decreases s.len() - b,
    {
        b = b + 1;
    }
    Some((a, b))
}

/// The word after the given one.
pub fn next_token_exec(s: &[char], t: Option<(usize, usize)>) -> (r: Option<(usize, usize)>)
    requires
        t matches Some((a, b)) ==> b <= s@.len(),
    ensures
        match r {
            Some((a, b)) => next_token(s@, opt_pair(t)) == Some((a as int, b as int)),
            None => next_token(s@, opt_pair(t)) is None,
        },
{
    match t {
        Some((_, b)) => token_at_exec(s, b),
        None => None,
    }
}

pub open spec fn opt_pair(t: Option<(usize, usize)>) -> Option<(int, int)> {
    match t {
        Some((a, b)) => Some((a as int, b as int)),
        None => None,
    }
}

/// How many bytes a character takes in UTF-8.
pub open spec fn char_utf8_len(c: char) -> int {
    if (c as u32) < 0x80 {
        1
    } else if (c as u32) < 0x800 {
        2
    } else if (c as u32) < 0x10000 {
        3
    } else {
        4
    }
}

/// `str::len`: how many bytes the text takes in UTF-8.
pub open spec fn utf8_len(s: Seq<char>) -> int
    decreases s.len(),
{
    if s.len() == 0 {
        0
    } else {
        utf8_len(s.drop_last()) + char_utf8_len(s.last())
    }
}

pub proof fn lemma_utf8_len_prefix(s: Seq<char>, k: int)
    requires
        0 <= k <= s.len(),
    ensures
        utf8_len(s.take(k)) <= utf8_len(s),
    decreases s.len(),
{
    if k == s.len() {
        assert(s.take(k) =~= s);
    } else {
        lemma_utf8_len_prefix(s.drop_last(), k);
        assert(s.drop_last().take(k) =~= s.take(k));
    }
}

/// Whether the text takes at most `n` bytes in UTF-8.
pub fn utf8_len_at_most(s: &[char], n: usize) -> (r: bool)
    ensures
        r == (utf8_len(s@) <= n),
{
    let mut acc: usize = 0;
    let mut i: usize = 0;
    while i < s.len()
        invariant
            0 <= i <= s@.len(),
            acc as int == utf8_len(s@.take(i as int)),
            acc <= n,
        decreases s.len() - i,
    {
        let c = s[i] as u32;
        let w: usize = if c < 0x80 {
            1
        } else if c < 0x800 {
            2
        } else if c < 0x10000 {
            3
        } else {
            4
        };
        assert(s@.take(i + 1).drop_last() =~= s@.take(i as int));
        if w > n - acc {
            proof {
                lemma_utf8_len_prefix(s@, i + 1);
            }
            return false;
        }
        acc = acc + w;
        i = i + 1;
    }
    assert(s@.take(s@.len() as int) =~= s@);
    true
}

/// The last position at or before `p` where `pat` occurs.
pub open spec fn rfind_from(s: Seq<char>, pat: Seq<char>, p: int) -> Option<int>
    decreases p + 1,
{
    if p < 0 {
        None
    } else if matches_at(s, pat, p) {
        Some(p)
    } else {
        rfind_from(s, pat, p - 1)
    }
}

/// `str::rfind`: the last position where `pat` occurs.
pub open spec fn rfind(s: Seq<char>, pat: Seq<char>) -> Option<int> {
    rfind_from(s, pat, s.len() - pat.len())
}

pub proof fn lemma_rfind_from(s: Seq<char>, pat: Seq<char>, p: int)
    ensures
        rfind_from(s, pat, p) matches Some(j) ==> 0 <= j <= p && matches_at(s, pat, j),
    decreases p + 1,
{
    if p >= 0 && !matches_at(s, pat, p) {
        lemma_rfind_from(s, pat, p - 1);
    }
}

/// `str::rfind`.
pub fn rfind_exec(s: &[char], pat: &[char]) -> (r: Option<usize>)
    ensures
        opt_int(r) == rfind(s@, pat@),
{
    if pat.len() > s.len() {
        assert(rfind(s@, pat@) is None);
        return None;
    }
    let mut p = s.len() - pat.len();
    loop
        invariant
            p + pat@.len() <= s@.len(),
            rfind(s@, pat@) == rfind_from(s@, pat@, p as int),
        decreases p,
    {
        if matches_at_exec(s, pat, p) {
            return Some(p);
        }
        if p == 0 {
            assert(rfind_from(s@, pat@, -1) is None);
            return None;
        }
        p = p - 1;
    }
}

/// `str::rfind` with a pattern given as a string.
pub fn rfind_str(s: &[char], pat: &str) -> (r: Option<usize>)
    ensures
        opt_int(r) == rfind(s@, pat@),
{
    let p = chars_of(pat);
    rfind_exec(s, p.as_slice())
}

/// The position of `pat`, and its length: where the text after it begins.
pub fn find_str_from(s: &[char], pat: &str, from: usize) -> (r: Option<usize>)
    ensures
        opt_int(r) == find_from(s@, pat@, from as int),
{
    let p = chars_of(pat);
    find_from_exec(s, p.as_slice(), from)
}

/// The length of a pattern given as a string.
pub fn str_len(pat: &str) -> (r: usize)
    ensures
        r as int == pat@.len(),
{
    let p = chars_of(pat);
    p.len()
}

// ---------------------------------------------------------------------------
// Numbers
// ---------------------------------------------------------------------------

/// The value of an ASCII digit.
pub open spec fn digit_value(c: char) -> int {
    (c as int) - ('0' as int)
}

/// The decimal value of a run of digits.
pub open spec fn digits_value(s: Seq<char>) -> int
    decreases s.len(),
{
    if s.len() == 0 {
        0
    } else {
        digits_value(s.drop_last()) * 10 + digit_value(s.last())
    }
}

/// `str::parse` for an integer type that holds `lo..=hi`: an optional `+`
/// (or, where `signed`, `-`), then at least one ASCII digit, and nothing else.
pub open spec fn parse_int(s: Seq<char>, signed: bool, lo: int, hi: int) -> Option<int> {
    if s.len() == 0 {
        None
    } else {
        let neg = signed && s[0] == '-';
        let ds = if s[0] == '+' || neg {
            s.drop_first()
        } else {
            s
        };
        if ds.len() == 0 || !all_digits(ds) {
            None
        } else {
            let v = if neg {
                -digits_value(ds)
            } else {
                digits_value(ds)
            };
            if lo <= v && v <= hi {
                Some(v)
            } else {
                None
            }
        }
    }
}

pub proof fn lemma_digits_value_nonneg(s: Seq<char>)
    requires
        all_digits(s),
    ensures
        digits_value(s) >= 0,
    decreases s.len(),
{
    if s.len() > 0 {
        assert(is_digit(s[s.len() - 1]));
        assert(all_digits(s.drop_last()));
        lemma_digits_value_nonneg(s.drop_last());
    }
}

/// A longer run of digits is worth at least as much as its prefix.
pub proof fn lemma_digits_value_prefix(s: Seq<char>, k: int)
    requires
        all_digits(s),
        0 <= k <= s.len(),
    ensures
        digits_value(s.take(k)) <= digits_value(s),
    decreases s.len(),
{
    if k == s.len() {
        assert(s.take(k) =~= s);
    } else {
        assert(all_digits(s.drop_last()));
        assert(is_digit(s[s.len() - 1]));
        lemma_digits_value_prefix(s.drop_last(), k);
        assert(s.drop_last().take(k) =~= s.take(k));
        lemma_digits_value_nonneg(s.drop_last());
    }
}

/// `str::parse` for an integer type that holds `lo..=hi`.
pub fn parse_int_exec(s: &[char], signed: bool, lo: i64, hi: i64) -> (r: Option<i64>)
    requires
        lo <= 0 <= hi,
    ensures
        match r {
            Some(v) => parse_int(s@, signed, lo as int, hi as int) == Some(v as int),
            None => parse_int(s@, signed, lo as int, hi as int) is None,
        },
{
    if s.len() == 0 {
        return None;
    }
    let neg = signed && s[0] == '-';
    let start: usize = if s[0] == '+' || neg {
        1
    } else {
        0
    };
    let ghost ds = if s@[0] == '+' || neg {
        s@.drop_first()
    } else {
        s@
    };
    assert(ds =~= s@.skip(start as int));
    if start >= s.len() {
        assert(ds.len() == 0);
        assert(parse_int(s@, signed, lo as int, hi as int) is None);
        return None;
    }
    // The largest magnitude that still fits.
    let bound: u128 = if neg {
        (0i128 - lo as i128) as u128
    } else {
        hi as u128
    };
    let mut acc: u128 = 0;
    let mut i = start;
    while i < s.len()
        invariant
            start <= i <= s@.len(),
            s@.len() > 0,
            lo <= 0 <= hi,
            neg == (signed && s@[0] == '-'),
            ds == (if s@[0] == '+' || neg {
                s@.drop_first()
            } else {
                s@
            }),
            bound as int == (if neg {
                -(lo as int)
            } else {
                hi as int
            }),
            ds == s@.skip(start as int),
            ds.len() > 0,
            bound <= 0x8000_0000_0000_0000u128,
            acc <= bound,
            all_digits(ds.take(i - start)),
            acc as int == digits_value(ds.take(i - start)),
        decreases s.len() - i,
    {
        let c = s[i];
        if !is_digit_exec(c) {
            assert(ds[i - start] == c);
            assert(!is_digit(ds[i - start]));
            assert(!all_digits(ds));
            return None;
        }
        let d = (c as u32 - '0' as u32) as u128;
        assert(ds.take(i + 1 - start).drop_last() =~= ds.take(i - start));
        assert(ds.take(i + 1 - start).last() == c);
        assert(all_digits(ds.take(i + 1 - start)));
        let next = acc * 10 + d;
        if next > bound {
            proof {
                // Whatever digits follow can only make it larger.
                let rest_ok = all_digits(ds);
                if rest_ok {
                    lemma_digits_value_prefix(ds, i + 1 - start);
                }
            }
            return None;
        }
        acc = next;
        i = i + 1;
    }
    assert(ds.take(s@.len() - start) =~= ds);
    let v: i64 = if neg {
        (0i128 - acc as i128) as i64
    } else {
        acc as i64
    };
    Some(v)
}

pub open spec fn opt_i32(r: Option<i32>) -> Option<int> {
    match r {
        Some(v) => Some(v as int),
        None => None,
    }
}

/// `str::parse::<i32>`.
pub fn parse_i32(s: &[char]) -> (r: Option<i32>)
    ensures
        opt_i32(r) == parse_int(s@, true, i32::MIN as int, i32::MAX as int),
{
    match parse_int_exec(s, true, i32::MIN as i64, i32::MAX as i64) {
        Some(v) => Some(v as i32),
        None => None,
    }
}

/// `str::parse::<u32>`.
pub fn parse_u32(s: &[char]) -> (r: Option<u32>)
    ensures
        match r {
            Some(v) => parse_int(s@, false, 0, u32::MAX as int) == Some(v as int),
            None => parse_int(s@, false, 0, u32::MAX as int) is None,
        },
{
    match parse_int_exec(s, false, 0, u32::MAX as i64) {
        Some(v) => Some(v as u32),
        None => None,
    }
}

/// `str::parse::<u8>`.
pub fn parse_u8(s: &[char]) -> (r: Option<u8>)
    ensures
        match r {
            Some(v) => parse_int(s@, false, 0, 255) == Some(v as int),
            None => parse_int(s@, false, 0, 255) is None,
        },
{
    match parse_int_exec(s, false, 0, 255) {
        Some(v) => Some(v as u8),
        None => None,
    }
}

/// `str::parse::<i16>`.
pub fn parse_i16(s: &[char]) -> (r: Option<i16>)
    ensures
        match r {
            Some(v) => parse_int(s@, true, i16::MIN as int, i16::MAX as int) == Some(v as int),
            None => parse_int(s@, true, i16::MIN as int, i16::MAX as int) is None,
        },
{
    match parse_int_exec(s, true, i16::MIN as i64, i16::MAX as i64) {
        Some(v) => Some(v as i16),
        None => None,
    }
}

/// `str::parse::<i64>`.
pub fn parse_i64(s: &[char]) -> (r: Option<i64>)
    ensures
        match r {
            Some(v) => parse_int(s@, true, i64::MIN as int, i64::MAX as int) == Some(v as int),
            None => parse_int(s@, true, i64::MIN as int, i64::MAX as int) is None,
        },
{
    parse_int_exec(s, true, i64::MIN, i64::MAX)
}

// ---------------------------------------------------------------------------
// Unicode case mapping (std)
// ---------------------------------------------------------------------------

/// What `str::to_lowercase` returns for these characters.
pub uninterp spec fn lowercase(s: Seq<char>) -> Seq<char>;

/// What `str::to_uppercase` returns for these characters.
pub uninterp spec fn uppercase(s: Seq<char>) -> Seq<char>;

/// `str::to_lowercase` (std): the full Unicode lower-case mapping. Its
/// result is named, not described.
#[verifier::external_body]
pub(crate) fn to_lowercase(s: &str) -> (r: String)
    ensures
        r@ == lowercase(s@),
{
    s.to_lowercase()
}

/// `str::to_uppercase` (std): the full Unicode upper-case mapping. Its
/// result is named, not described.
#[verifier::external_body]
pub(crate) fn to_uppercase(s: &str) -> (r: String)
    ensures
        r@ == uppercase(s@),
{
    s.to_uppercase()
}

// ---------------------------------------------------------------------------
// Splitting
// ---------------------------------------------------------------------------

/// Splitting at `sep` after some characters: the finished parts and the
/// part being read.
pub open spec fn split_upto(s: Seq<char>, sep: char, n: int) -> (Seq<Seq<char>>, Seq<char>)
    decreases n,
{
    if n <= 0 {
        (Seq::empty(), Seq::empty())
    } else {
        let (out, cur) = split_upto(s, sep, n - 1);
        if s[n - 1] == sep {
            (out.push(cur), Seq::empty())
        } else {
            (out, cur.push(s[n - 1]))
        }
    }
}

/// `str::split`: the parts between the separators, empty ones included.
pub open spec fn split_parts(s: Seq<char>, sep: char) -> Seq<Seq<char>> {
    let (out, cur) = split_upto(s, sep, s.len() as int);
    out.push(cur)
}

/// `str::split` on a character: the parts between the separators.
pub fn split_on(s: &[char], sep: char) -> (r: Vec<Vec<char>>)
    ensures
        r@.len() == split_parts(s@, sep).len(),
        forall|k: int| 0 <= k < r@.len() ==> #[trigger] r@[k]@ == split_parts(s@, sep)[k],
{
    let mut out: Vec<Vec<char>> = Vec::new();
    let mut cur: Vec<char> = Vec::new();
    let mut i: usize = 0;
    while i < s.len()
        invariant
            0 <= i <= s@.len(),
            cur@ == split_upto(s@, sep, i as int).1,
            out@.len() == split_upto(s@, sep, i as int).0.len(),
            forall|k: int| 0 <= k < out@.len() ==> #[trigger] out@[k]@ == split_upto(s@, sep, i as int).0[k],
        decreases s.len() - i,
    {
        if s[i] == sep {
            out.push(cur);
            cur = Vec::new();
            assert(cur@ =~= Seq::<char>::empty());
        } else {
            cur.push(s[i]);
        }
        i = i + 1;
    }
    out.push(cur);
    out
}

// ---------------------------------------------------------------------------
// Numbers as text
// ---------------------------------------------------------------------------

/// The decimal text of a whole number, as `to_string` writes it.
pub open spec fn digits_of(n: nat) -> Seq<char>
    decreases n,
{
    if n < 10 {
        seq![('0' as u32 + n) as char]
    } else {
        digits_of(n / 10).push(('0' as u32 + n % 10) as char)
    }
}

pub open spec fn decimal(n: int) -> Seq<char> {
    if n < 0 {
        seq!['-'] + digits_of((-n) as nat)
    } else {
        digits_of(n as nat)
    }
}

pub fn digits_exec(n: u64) -> (r: Vec<char>)
    ensures
        r@ == digits_of(n as nat),
    decreases n,
{
    if n < 10 {
        let c = char_of_digit(n as u32);
        let mut v: Vec<char> = Vec::new();
        v.push(c);
        assert(v@ =~= digits_of(n as nat));
        v
    } else {
        let mut v = digits_exec(n / 10);
        v.push(char_of_digit((n % 10) as u32));
        v
    }
}

fn char_of_digit(d: u32) -> (c: char)
    requires
        d < 10,
    ensures
        c == ('0' as u32 + d) as char,
{
    match d {
        0 => '0',
        1 => '1',
        2 => '2',
        3 => '3',
        4 => '4',
        5 => '5',
        6 => '6',
        7 => '7',
        8 => '8',
        _ => '9',
    }
}

/// The decimal text of a whole number.
pub fn decimal_text(n: i64) -> (r: String)
    ensures
        r@ == decimal(n as int),
{
    if n < 0 {
        let m: u64 = if n == i64::MIN {
            9_223_372_036_854_775_808u64
        } else {
            (-n) as u64
        };
        let ds = digits_exec(m);
        let mut v: Vec<char> = Vec::new();
        v.push('-');
        let mut i: usize = 0;
        while i < ds.len()
            invariant
                0 <= i <= ds@.len(),
                v@ == seq!['-'] + ds@.take(i as int),
            decreases ds.len() - i,
        {
            v.push(ds[i]);
            i = i + 1;
            assert(v@ =~= seq!['-'] + ds@.take(i as int));
        }
        assert(ds@.take(ds@.len() as int) =~= ds@);
        string_from(v.as_slice())
    } else {
        let ds = digits_exec(n as u64);
        string_from(ds.as_slice())
    }
}

proof fn lemma_digit_char(d: nat)
    requires
        d < 10,
    ensures
        is_digit(('0' as u32 + d) as char),
        digit_value(('0' as u32 + d) as char) == d,
{
    let c = ('0' as u32 + d) as char;
    assert(c as int == 48 + d);
}

/// The decimal text of a number is a run of digits worth that number.
pub proof fn lemma_digits_of(n: nat)
    ensures
        digits_of(n).len() >= 1,
        all_digits(digits_of(n)),
        digits_value(digits_of(n)) == n,
    decreases n,
{
    if n < 10 {
        lemma_digit_char(n);
        let s = digits_of(n);
        assert(s.drop_last() =~= Seq::<char>::empty());
        assert(digits_value(s.drop_last()) == 0);
        assert(digits_value(s) == digits_value(s.drop_last()) * 10 + digit_value(s.last()));
        assert(digits_value(s) == n);
    } else {
        lemma_digits_of(n / 10);
        lemma_digit_char(n % 10);
        let s = digits_of(n);
        assert(s.drop_last() =~= digits_of(n / 10));
        assert(s.last() == ('0' as u32 + n % 10) as char);
        assert((n / 10) * 10 + n % 10 == n) by (nonlinear_arith);
        assert(digits_value(s) == digits_value(digits_of(n / 10)) * 10 + digit_value(s.last()));
        assert(digits_value(s) == (n / 10) * 10 + n % 10);
        assert forall|i: int| 0 <= i < s.len() implies #[trigger] is_digit(s[i]) by {
            if i < s.len() - 1 {
                assert(s[i] == digits_of(n / 10)[i]);
            }
        }
    }
}

/// `str::parse` reads back the decimal text of every number of its type.
pub proof fn lemma_parse_decimal(n: int, lo: int, hi: int)
    requires
        lo <= n <= hi,
    ensures
        parse_int(decimal(n), true, lo, hi) == Some(n),
{
    if n < 0 {
        let m = (-n) as nat;
        lemma_digits_of(m);
        let s = decimal(n);
        assert(s[0] == '-');
        assert(s.drop_first() =~= digits_of(m));
    } else {
        lemma_digits_of(n as nat);
        let s = decimal(n);
        assert(is_digit(s[0]));
    }
}

/// Where the first `c` stands, when it stands at `j` and not before.
pub proof fn lemma_find_char_at(s: Seq<char>, c: char, i: int, j: int)
    requires
        0 <= i <= j < s.len(),
        s[j] == c,
        forall|k: int| i <= k < j ==> s[k] != c,
    ensures
        find_char_from(s, c, i) == Some(j),
    decreases j - i,
{
    if i < j {
        lemma_find_char_at(s, c, i + 1, j);
    }
}

} // verus!
