//! Character-sequence operations that the parsers and formatters are built
//! from: searching, splitting, joining, trimming, case folding and decimal
//! numbers. Each has a spec function over `Seq<char>` and an executable
//! counterpart over `Vec<char>` / `&[char]` proved against it.

use vstd::prelude::*;

verus! {

// ---------------------------------------------------------------------------
// Searching
// ---------------------------------------------------------------------------

/// `sep` occurs in `s` starting at index `i`.
pub open spec fn occurs_at(s: Seq<char>, sep: Seq<char>, i: int) -> bool {
    &&& 0 <= i
    &&& i + sep.len() <= s.len()
    &&& s.subrange(i, i + sep.len()) == sep
}

/// Index of the first occurrence of `sep` in `s` at or after `i`.
pub open spec fn find_from(s: Seq<char>, sep: Seq<char>, i: int) -> Option<int>
    decreases s.len() + 1 - i,
{
    if i < 0 || i + sep.len() > s.len() {
        None
    } else if occurs_at(s, sep, i) {
        Some(i)
    } else {
        find_from(s, sep, i + 1)
    }
}

/// Index of the first occurrence of `sep` in `s`.
pub open spec fn find(s: Seq<char>, sep: Seq<char>) -> Option<int> {
    find_from(s, sep, 0)
}

/// `s` contains `sub` as a contiguous piece.
pub open spec fn contains(s: Seq<char>, sub: Seq<char>) -> bool {
    find(s, sub) is Some
}

/// Index of the first occurrence of the character `c` in `s`.
pub open spec fn index_of(s: Seq<char>, c: char) -> Option<int> {
    find(s, seq![c])
}

/// `find_from` returns the first occurrence at or after `i`.
pub proof fn lemma_find_from(s: Seq<char>, sep: Seq<char>, i: int)
    requires
        0 <= i,
    ensures
        find_from(s, sep, i) matches Some(j) ==> {
            &&& i <= j
            &&& occurs_at(s, sep, j)
            &&& forall|k: int| i <= k < j ==> !occurs_at(s, sep, k)
        },
        find_from(s, sep, i) is None ==> forall|k: int| i <= k ==> !occurs_at(s, sep, k),
    decreases s.len() + 1 - i,
{
    if i + sep.len() > s.len() {
    } else if occurs_at(s, sep, i) {
    } else {
        lemma_find_from(s, sep, i + 1);
        assert forall|k: int| i <= k && !(i + 1 <= k) implies !occurs_at(s, sep, k) by {}
    }
}

/// An occurrence found in `s` is also the first one in `s` followed by more text.
pub proof fn lemma_find_from_prefix(s: Seq<char>, t: Seq<char>, sep: Seq<char>, i: int)
    requires
        0 <= i,
        find_from(s, sep, i) is Some,
    ensures
        find_from(s + t, sep, i) == find_from(s, sep, i),
    decreases s.len() + 1 - i,
{
    lemma_find_from(s, sep, i);
    let st = s + t;
    assert(i + sep.len() <= s.len());
    assert(st.subrange(i, i + sep.len()) =~= s.subrange(i, i + sep.len()));
    if !occurs_at(s, sep, i) {
        lemma_find_from_prefix(s, t, sep, i + 1);
    }
}

/// Whether `sep` occurs in `s` at index `i`.
pub fn occurs_at_exec(s: &[char], sep: &[char], i: usize) -> (b: bool)
    ensures
        b == occurs_at(s@, sep@, i as int),
{
    if i > s.len() || sep.len() > s.len() - i {
        return false;
    }
    let mut k: usize = 0;
    while k < sep.len()
        invariant
            k <= sep.len(),
            i + sep.len() <= s.len(),
            forall|j: int| 0 <= j < k ==> s@[i + j] == sep@[j],
        decreases sep.len() - k,
    {
        if s[i + k] != sep[k] {
            assert(s@.subrange(i as int, i + sep.len())[k as int] != sep@[k as int]);
            return false;
        }
        k += 1;
    }
    assert(s@.subrange(i as int, i + sep.len()) =~= sep@);
    true
}

/// The first occurrence of `sep` in `s` at or after `from`.
pub fn find_from_exec(s: &[char], sep: &[char], from: usize) -> (r: Option<usize>)
    ensures
        r matches Some(j) ==> find_from(s@, sep@, from as int) == Some(j as int) && from <= j
            && occurs_at(s@, sep@, j as int),
        r is None ==> find_from(s@, sep@, from as int) is None,
{
    proof {
        lemma_find_from(s@, sep@, from as int);
    }
    if from > s.len() {
        return None;
    }
    let mut i = from;
    while i <= s.len() && sep.len() <= s.len() - i
        invariant
            from <= i <= s.len() + 1,
            find_from(s@, sep@, from as int) == find_from(s@, sep@, i as int),
        decreases s.len() - i,
    {
        if occurs_at_exec(s, sep, i) {
            return Some(i);
        }
        proof {
            if i == s.len() {
                assert(s@.subrange(i as int, i as int) =~= sep@);
            }
        }
        i += 1;
    }
    None
}

/// The first occurrence of `sep` in `s`.
pub fn find_exec(s: &[char], sep: &[char]) -> (r: Option<usize>)
    ensures
        r matches Some(j) ==> find(s@, sep@) == Some(j as int) && occurs_at(s@, sep@, j as int),
        r is None ==> find(s@, sep@) is None,
{
    find_from_exec(s, sep, 0)
}

/// Whether `s` contains `sub`.
pub fn contains_exec(s: &[char], sub: &[char]) -> (b: bool)
    ensures
        b == contains(s@, sub@),
{
    find_exec(s, sub).is_some()
}

/// Whether `a` and `b` hold the same characters.
pub fn chars_eq(a: &[char], b: &[char]) -> (r: bool)
    ensures
        r == (a@ == b@),
{
    if a.len() != b.len() {
        return false;
    }
    let mut i: usize = 0;
    while i < a.len()
        invariant
            i <= a.len(),
            a.len() == b.len(),
            forall|j: int| 0 <= j < i ==> a@[j] == b@[j],
        decreases a.len() - i,
    {
        if a[i] != b[i] {
            return false;
        }
        i += 1;
    }
    assert(a@ =~= b@);
    true
}

// ---------------------------------------------------------------------------
// Copying pieces
// ---------------------------------------------------------------------------

/// A copy of `s[from..to]`.
pub fn slice_chars(s: &[char], from: usize, to: usize) -> (r: Vec<char>)
    requires
        from <= to <= s.len(),
    ensures
        r@ == s@.subrange(from as int, to as int),
{
    let mut r: Vec<char> = Vec::new();
    let mut i = from;
    while i < to
        invariant
            from <= i <= to <= s.len(),
            r@ == s@.subrange(from as int, i as int),
        decreases to - i,
    {
        r.push(s[i]);
        i += 1;
        assert(r@ =~= s@.subrange(from as int, i as int));
    }
    r
}

/// Appends `t` to `out`.
pub fn push_all(out: &mut Vec<char>, t: &[char])
    ensures
        final(out)@ == old(out)@ + t@,
{
    let mut i: usize = 0;
    while i < t.len()
        invariant
            i <= t.len(),
            out@ == old(out)@ + t@.subrange(0, i as int),
        decreases t.len() - i,
    {
        out.push(t[i]);
        i += 1;
        assert(out@ =~= old(out)@ + t@.subrange(0, i as int));
    }
    assert(t@.subrange(0, t@.len() as int) =~= t@);
}

// ---------------------------------------------------------------------------
// Splitting and joining
// ---------------------------------------------------------------------------

/// The character sequences held by a sequence of vectors.
pub open spec fn char_vecs(v: Seq<Vec<char>>) -> Seq<Seq<char>> {
    v.map_values(|p: Vec<char>| p@)
}

/// The pieces of `s[start..]` between occurrences of `sep`, scanning from
/// `i`; occurrences are taken from left to right without overlap.
pub open spec fn split_rec(s: Seq<char>, sep: Seq<char>, start: int, i: int) -> Seq<Seq<char>>
    decreases s.len() - i,
{
    if sep.len() == 0 || i < start || i + sep.len() > s.len() {
        seq![s.subrange(start, s.len() as int)]
    } else if occurs_at(s, sep, i) {
        seq![s.subrange(start, i)] + split_rec(s, sep, i + sep.len(), i + sep.len())
    } else {
        split_rec(s, sep, start, i + 1)
    }
}

/// `s` split on every occurrence of `sep` (as `str::split` does); there is
/// always at least one piece.
pub open spec fn split(s: Seq<char>, sep: Seq<char>) -> Seq<Seq<char>> {
    split_rec(s, sep, 0, 0)
}

/// A split has at least one piece.
pub proof fn lemma_split_rec_len(s: Seq<char>, sep: Seq<char>, start: int, i: int)
    ensures
        split_rec(s, sep, start, i).len() >= 1,
    decreases s.len() - i,
{
    if sep.len() == 0 || i < start || i + sep.len() > s.len() {
    } else if occurs_at(s, sep, i) {
        lemma_split_rec_len(s, sep, i + sep.len(), i + sep.len());
    } else {
        lemma_split_rec_len(s, sep, start, i + 1);
    }
}

/// The pieces of `parts` that are not empty, in order.
pub open spec fn nonempty(parts: Seq<Seq<char>>) -> Seq<Seq<char>>
    decreases parts.len(),
{
    if parts.len() == 0 {
        seq![]
    } else if parts.last().len() > 0 {
        nonempty(parts.drop_last()).push(parts.last())
    } else {
        nonempty(parts.drop_last())
    }
}

/// `parts` joined with `sep` between consecutive pieces.
pub open spec fn join(parts: Seq<Seq<char>>, sep: Seq<char>) -> Seq<char>
    decreases parts.len(),
{
    if parts.len() == 0 {
        seq![]
    } else if parts.len() == 1 {
        parts[0]
    } else {
        join(parts.drop_last(), sep) + sep + parts.last()
    }
}

/// The split of `s` on `sep`.
pub fn split_exec(s: &[char], sep: &[char]) -> (parts: Vec<Vec<char>>)
    requires
        sep@.len() > 0,
    ensures
        char_vecs(parts@) == split(s@, sep@),
        parts@.len() >= 1,
{
    proof {
        lemma_split_rec_len(s@, sep@, 0, 0);
    }
    let mut parts: Vec<Vec<char>> = Vec::new();
    let mut start: usize = 0;
    let mut i: usize = 0;
    while i <= s.len() && sep.len() <= s.len() - i
        invariant
            start <= i <= s.len() + 1,
            start <= s.len(),
            sep@.len() > 0,
            char_vecs(parts@) + split_rec(s@, sep@, start as int, i as int) == split(s@, sep@),
        decreases s.len() + 1 - i,
    {
        if occurs_at_exec(s, sep, i) {
            let piece = slice_chars(s, start, i);
            let ghost old_parts = char_vecs(parts@);
            parts.push(piece);
            assert(char_vecs(parts@) =~= old_parts.push(piece@));
            start = i + sep.len();
            i = i + sep.len();
            assert(char_vecs(parts@) + split_rec(s@, sep@, start as int, i as int)
                =~= old_parts + (seq![piece@] + split_rec(s@, sep@, start as int, i as int)));
        } else {
            i += 1;
        }
    }
    let piece = slice_chars(s, start, s.len());
    let ghost old_parts = char_vecs(parts@);
    parts.push(piece);
    assert(char_vecs(parts@) =~= old_parts + seq![piece@]);
    parts
}

/// The non-empty pieces of `parts`, in order.
pub fn nonempty_exec(parts: &Vec<Vec<char>>) -> (r: Vec<Vec<char>>)
    ensures
        char_vecs(r@) == nonempty(char_vecs(parts@)),
{
    let ghost all = char_vecs(parts@);
    let mut r: Vec<Vec<char>> = Vec::new();
    let mut i: usize = 0;
    while i < parts.len()
        invariant
            i <= parts.len(),
            all == char_vecs(parts@),
            char_vecs(r@) == nonempty(all.subrange(0, i as int)),
        decreases parts.len() - i,
    {
        let n = parts[i].len();
        if n > 0 {
            let piece = slice_chars(parts[i].as_slice(), 0, n);
            assert(piece@ =~= all[i as int]);
            let ghost before = char_vecs(r@);
            r.push(piece);
            assert(char_vecs(r@) =~= before.push(piece@));
        }
        i += 1;
        assert(all.subrange(0, i as int).drop_last() =~= all.subrange(0, i - 1));
    }
    assert(all.subrange(0, all.len() as int) =~= all);
    r
}

/// `parts` joined with `sep`.
pub fn join_exec(parts: &Vec<Vec<char>>, sep: &[char]) -> (r: Vec<char>)
    ensures
        r@ == join(char_vecs(parts@), sep@),
{
    let ghost all = char_vecs(parts@);
    let mut r: Vec<char> = Vec::new();
    let mut i: usize = 0;
    while i < parts.len()
        invariant
            i <= parts.len(),
            all == char_vecs(parts@),
            r@ == join(all.subrange(0, i as int), sep@),
        decreases parts.len() - i,
    {
        if i > 0 {
            push_all(&mut r, sep);
        }
        push_all(&mut r, parts[i].as_slice());
        i += 1;
        assert(all.subrange(0, i as int).drop_last() =~= all.subrange(0, i - 1));
        assert(i == 1 ==> all.subrange(0, i as int)[0] == all[0]);
    }
    assert(all.subrange(0, all.len() as int) =~= all);
    r
}

// ---------------------------------------------------------------------------
// Whitespace and case
// ---------------------------------------------------------------------------

/// The characters with the Unicode `White_Space` property (those for which
/// `char::is_whitespace` holds).
pub open spec fn is_whitespace(c: char) -> bool {
    ||| '\t' <= c <= '\r'
    ||| c == ' '
    ||| c == '\u{85}'
    ||| c == '\u{a0}'
    ||| c == '\u{1680}'
    ||| '\u{2000}' <= c <= '\u{200a}'
    ||| c == '\u{2028}'
    ||| c == '\u{2029}'
    ||| c == '\u{202f}'
    ||| c == '\u{205f}'
    ||| c == '\u{3000}'
}

/// Whether `c` is whitespace.
pub fn is_whitespace_exec(c: char) -> (b: bool)
    ensures
        b == is_whitespace(c),
{
    ('\t' <= c && c <= '\r') || c == ' ' || c == '\u{85}' || c == '\u{a0}' || c == '\u{1680}'
        || ('\u{2000}' <= c && c <= '\u{200a}') || c == '\u{2028}' || c == '\u{2029}' || c
        == '\u{202f}' || c == '\u{205f}' || c == '\u{3000}'
}

/// The first index at or after `i` that does not hold whitespace.
pub open spec fn skip_ws(s: Seq<char>, i: int) -> int
    decreases s.len() - i,
{
    if 0 <= i < s.len() && is_whitespace(s[i]) {
        skip_ws(s, i + 1)
    } else {
        i
    }
}

/// The end of `s[..j]` once trailing whitespace is removed.
pub open spec fn back_ws(s: Seq<char>, j: int) -> int
    decreases j,
{
    if 0 < j <= s.len() && is_whitespace(s[j - 1]) {
        back_ws(s, j - 1)
    } else {
        j
    }
}

/// `s` without leading whitespace (`str::trim_start`).
pub open spec fn trim_start(s: Seq<char>) -> Seq<char> {
    s.subrange(skip_ws(s, 0), s.len() as int)
}

/// `s` without trailing whitespace (`str::trim_end`).
pub open spec fn trim_end(s: Seq<char>) -> Seq<char> {
    s.subrange(0, back_ws(s, s.len() as int))
}

/// `s` without leading and trailing whitespace (`str::trim`).
pub open spec fn trim(s: Seq<char>) -> Seq<char> {
    trim_start(trim_end(s))
}

pub proof fn lemma_skip_ws_bounds(s: Seq<char>, i: int)
    requires
        0 <= i <= s.len(),
    ensures
        i <= skip_ws(s, i) <= s.len(),
    decreases s.len() - i,
{
    if i < s.len() && is_whitespace(s[i]) {
        lemma_skip_ws_bounds(s, i + 1);
    }
}

pub proof fn lemma_back_ws_bounds(s: Seq<char>, j: int)
    requires
        0 <= j <= s.len(),
    ensures
        0 <= back_ws(s, j) <= j,
    decreases j,
{
    if 0 < j && is_whitespace(s[j - 1]) {
        lemma_back_ws_bounds(s, j - 1);
    }
}

/// `s` without trailing whitespace.
pub fn trim_end_exec(s: &[char]) -> (r: Vec<char>)
    ensures
        r@ == trim_end(s@),
{
    let mut j = s.len();
    while j > 0 && is_whitespace_exec(s[j - 1])
        invariant
            j <= s.len(),
            back_ws(s@, j as int) == back_ws(s@, s@.len() as int),
        decreases j,
    {
        j -= 1;
    }
    slice_chars(s, 0, j)
}

/// `s` without leading and trailing whitespace.
pub fn trim_exec(s: &[char]) -> (r: Vec<char>)
    ensures
        r@ == trim(s@),
{
    let t = trim_end_exec(s);
    let mut i: usize = 0;
    while i < t.len() && is_whitespace_exec(t[i])
        invariant
            i <= t.len(),
            skip_ws(t@, i as int) == skip_ws(t@, 0),
        decreases t.len() - i,
    {
        i += 1;
    }
    slice_chars(t.as_slice(), i, t.len())
}

/// The pieces of `s[start..]` between whitespace characters, scanning from `i`.
pub open spec fn split_ws_rec(s: Seq<char>, start: int, i: int) -> Seq<Seq<char>>
    decreases s.len() - i,
{
    if i < start || i >= s.len() {
        seq![s.subrange(start, s.len() as int)]
    } else if is_whitespace(s[i]) {
        seq![s.subrange(start, i)] + split_ws_rec(s, i + 1, i + 1)
    } else {
        split_ws_rec(s, start, i + 1)
    }
}

/// The maximal runs of non-whitespace characters of `s`
/// (`str::split_whitespace`).
pub open spec fn split_whitespace(s: Seq<char>) -> Seq<Seq<char>> {
    nonempty(split_ws_rec(s, 0, 0))
}

/// The whitespace-separated words of `s`.
pub fn split_whitespace_exec(s: &[char]) -> (words: Vec<Vec<char>>)
    ensures
        char_vecs(words@) == split_whitespace(s@),
{
    let mut parts: Vec<Vec<char>> = Vec::new();
    let mut start: usize = 0;
    let mut i: usize = 0;
    while i < s.len()
        invariant
            start <= i <= s.len(),
            char_vecs(parts@) + split_ws_rec(s@, start as int, i as int) == split_ws_rec(s@, 0, 0),
        decreases s.len() - i,
    {
        if is_whitespace_exec(s[i]) {
            let piece = slice_chars(s, start, i);
            let ghost old_parts = char_vecs(parts@);
            parts.push(piece);
            assert(char_vecs(parts@) =~= old_parts.push(piece@));
            start = i + 1;
            i = i + 1;
            assert(char_vecs(parts@) + split_ws_rec(s@, start as int, i as int) =~= old_parts + (
            seq![piece@] + split_ws_rec(s@, start as int, i as int)));
        } else {
            i += 1;
        }
    }
    let piece = slice_chars(s, start, s.len());
    let ghost old_parts = char_vecs(parts@);
    parts.push(piece);
    assert(char_vecs(parts@) =~= old_parts + seq![piece@]);
    nonempty_exec(&parts)
}

/// `c` with ASCII upper-case letters mapped to lower case.
pub open spec fn ascii_lower_char(c: char) -> char {
    if 'A' <= c <= 'Z' {
        ((c as u32) + 32) as char
    } else {
        c
    }
}

/// `s` with ASCII upper-case letters mapped to lower case
/// (`str::to_ascii_lowercase`).
pub open spec fn ascii_lower(s: Seq<char>) -> Seq<char> {
    s.map_values(|c: char| ascii_lower_char(c))
}

/// `c` in ASCII lower case.
pub fn ascii_lower_char_exec(c: char) -> (r: char)
    ensures
        r == ascii_lower_char(c),
{
    if 'A' <= c && c <= 'Z' {
        let b = (c as u8) + 32;
        b as char
    } else {
        c
    }
}

/// `s` in ASCII lower case.
pub fn ascii_lower_exec(s: &[char]) -> (r: Vec<char>)
    ensures
        r@ == ascii_lower(s@),
{
    let mut r: Vec<char> = Vec::new();
    let mut i: usize = 0;
    while i < s.len()
        invariant
            i <= s.len(),
            r@ == ascii_lower(s@.subrange(0, i as int)),
        decreases s.len() - i,
    {
        r.push(ascii_lower_char_exec(s[i]));
        i += 1;
        assert(r@ =~= ascii_lower(s@.subrange(0, i as int)));
    }
    assert(s@.subrange(0, s@.len() as int) =~= s@);
    r
}

// ---------------------------------------------------------------------------
// Decimal numbers
// ---------------------------------------------------------------------------

/// The character of the decimal digit `d`.
pub open spec fn digit_char(d: int) -> char {
    (48 + d) as char
}

/// The decimal representation of `n`, without sign or leading zeros.
pub open spec fn decimal(n: nat) -> Seq<char>
    decreases n,
{
    if n < 10 {
        seq![digit_char(n as int)]
    } else {
        decimal(n / 10).push(digit_char((n % 10) as int))
    }
}

/// Appends the decimal representation of `n` to `out`.
pub fn push_decimal(out: &mut Vec<char>, n: u64)
    ensures
        final(out)@ == old(out)@ + decimal(n as nat),
    decreases n,
{
    if n >= 10 {
        push_decimal(out, n / 10);
    }
    let d = (n % 10) as u8;
    out.push((48u8 + d) as char);
    assert(out@ =~= old(out)@ + decimal(n as nat));
}

/// `c` is an ASCII decimal digit.
pub open spec fn is_digit(c: char) -> bool {
    '0' <= c <= '9'
}

/// The value of a sequence of decimal digits.
pub open spec fn digits_value(s: Seq<char>) -> nat
    decreases s.len(),
{
    if s.len() == 0 {
        0
    } else {
        digits_value(s.drop_last()) * 10 + ((s.last() as int) - 48) as nat
    }
}

/// `s` without a leading `+`.
pub open spec fn unsigned_digits(s: Seq<char>) -> Seq<char> {
    if s.len() > 0 && s[0] == '+' {
        s.drop_first()
    } else {
        s
    }
}

/// What `str::parse::<usize>` gives: an optional `+` followed by at least
/// one decimal digit and nothing else, whose value fits in a `usize`.
pub open spec fn parse_usize(s: Seq<char>) -> Option<usize> {
    let d = unsigned_digits(s);
    if d.len() > 0 && (forall|i: int| 0 <= i < d.len() ==> is_digit(#[trigger] d[i]))
        && digits_value(d) <= usize::MAX {
        Some(digits_value(d) as usize)
    } else {
        None
    }
}

proof fn lemma_digits_value_prefix(d: Seq<char>, k: int)
    requires
        0 <= k <= d.len(),
        forall|i: int| 0 <= i < d.len() ==> is_digit(#[trigger] d[i]),
    ensures
        digits_value(d.subrange(0, k)) <= digits_value(d),
    decreases d.len(),
{
    if k < d.len() {
        let e = d.drop_last();
        assert(e.subrange(0, k) =~= d.subrange(0, k));
        assert forall|i: int| 0 <= i < e.len() implies is_digit(#[trigger] e[i]) by {
            assert(e[i] == d[i]);
        }
        lemma_digits_value_prefix(e, k);
        assert(is_digit(d[d.len() - 1]));
    } else {
        assert(d.subrange(0, k) =~= d);
    }
}

/// The number written in `s`, as `str::parse::<usize>` reads it.
pub fn parse_usize_exec(s: &[char]) -> (r: Option<usize>)
    ensures
        r == parse_usize(s@),
{
    let from: usize = if s.len() > 0 && s[0] == '+' { 1 } else { 0 };
    let ghost d = unsigned_digits(s@);
    assert(d =~= s@.subrange(from as int, s@.len() as int));
    if from >= s.len() {
        return None;
    }
    let mut v: usize = 0;
    let mut i = from;
    while i < s.len()
        invariant
            from <= i <= s.len(),
            d == s@.subrange(from as int, s@.len() as int),
            d == unsigned_digits(s@),
            forall|k: int| 0 <= k < i - from ==> is_digit(#[trigger] d[k]),
            v as nat == digits_value(d.subrange(0, i - from)),
        decreases s.len() - i,
    {
        let c = s[i];
        assert(d[i - from] == c);
        if !('0' <= c && c <= '9') {
            assert(!is_digit(d[i - from]));
            return None;
        }
        let dg = (c as u32 - 48) as usize;
        assert(d.subrange(0, i + 1 - from).drop_last() =~= d.subrange(0, i - from));
        assert(d.subrange(0, i + 1 - from).last() == c);
        if v > (usize::MAX - dg) / 10 {
            proof {
                assert(v * 10 + dg > usize::MAX) by (nonlinear_arith)
                    requires
                        v > (usize::MAX - dg) / 10,
                        dg <= 9,
                ;
                assert(digits_value(d.subrange(0, i + 1 - from)) > usize::MAX);
                if forall|k: int| 0 <= k < d.len() ==> is_digit(#[trigger] d[k]) {
                    lemma_digits_value_prefix(d, i + 1 - from);
                }
            }
            return None;
        }
        assert(v * 10 + dg <= usize::MAX) by (nonlinear_arith)
            requires
                v <= (usize::MAX - dg) / 10,
                dg <= 9,
        ;
        v = v * 10 + dg;
        i += 1;
    }
    assert(d.subrange(0, d.len() as int) =~= d);
    Some(v)
}

// ---------------------------------------------------------------------------
// Line breaks
// ---------------------------------------------------------------------------

/// `s` without its `\r` and `\n` characters.
pub open spec fn remove_crlf(s: Seq<char>) -> Seq<char>
    decreases s.len(),
{
    if s.len() == 0 {
        Seq::empty()
    } else if s.last() == '\r' || s.last() == '\n' {
        remove_crlf(s.drop_last())
    } else {
        remove_crlf(s.drop_last()).push(s.last())
    }
}

/// Appends `s` without its `\r` and `\n` characters to `out`.
pub fn push_without_crlf(out: &mut Vec<char>, s: &[char])
    ensures
        final(out)@ == old(out)@ + remove_crlf(s@),
{
    let mut i: usize = 0;
    while i < s.len()
        invariant
            i <= s.len(),
            out@ == old(out)@ + remove_crlf(s@.subrange(0, i as int)),
        decreases s.len() - i,
    {
        let c = s[i];
        if c != '\r' && c != '\n' {
            out.push(c);
        }
        i += 1;
        assert(s@.subrange(0, i as int).drop_last() =~= s@.subrange(0, i - 1));
        assert(out@ =~= old(out)@ + remove_crlf(s@.subrange(0, i as int)));
    }
    assert(s@.subrange(0, s@.len() as int) =~= s@);
}

// ---------------------------------------------------------------------------
// Facts about splitting and joining
// ---------------------------------------------------------------------------

/// `s` does not hold the character `c`.
pub open spec fn lacks(s: Seq<char>, c: char) -> bool {
    forall|i: int| 0 <= i < s.len() ==> s[i] != c
}

/// Joining one piece in front of at least one more.
pub proof fn lemma_join_prepend(a: Seq<char>, rest: Seq<Seq<char>>, sep: Seq<char>)
    requires
        rest.len() >= 1,
    ensures
        join(seq![a] + rest, sep) == a + sep + join(rest, sep),
    decreases rest.len(),
{
    let all = seq![a] + rest;
    if rest.len() == 1 {
        assert(all.drop_last() =~= seq![a]);
        assert(all.last() == rest[0]);
        assert(all.len() == 2);
        assert(join(all, sep) == join(all.drop_last(), sep) + sep + all.last());
        assert(join(seq![a], sep) == a);
        assert(join(rest, sep) == rest[0]);
        assert(join(all, sep) =~= a + sep + join(rest, sep));
    } else {
        lemma_join_prepend(a, rest.drop_last(), sep);
        assert(all.drop_last() =~= seq![a] + rest.drop_last());
        assert(all.last() == rest.last());
        assert(all.len() > 1);
        assert(join(all, sep) == join(all.drop_last(), sep) + sep + all.last());
        assert(join(rest, sep) == join(rest.drop_last(), sep) + sep + rest.last());
        assert(join(all, sep) =~= a + sep + join(rest, sep));
    }
}

/// Joining the pieces of a split with its separator gives the text back.
pub proof fn lemma_join_split_rec(s: Seq<char>, sep: Seq<char>, start: int, i: int)
    requires
        sep.len() > 0,
        0 <= start <= i <= s.len(),
    ensures
        join(split_rec(s, sep, start, i), sep) == s.subrange(start, s.len() as int),
    decreases s.len() - i,
{
    if i + sep.len() > s.len() {
    } else if occurs_at(s, sep, i) {
        let rest = split_rec(s, sep, i + sep.len(), i + sep.len());
        lemma_join_split_rec(s, sep, i + sep.len(), i + sep.len());
        lemma_split_rec_len(s, sep, i + sep.len(), i + sep.len());
        lemma_join_prepend(s.subrange(start, i), rest, sep);
        assert(s.subrange(start, i) + sep + s.subrange(i + sep.len(), s.len() as int) =~= s.subrange(
            start,
            s.len() as int,
        ));
    } else {
        lemma_join_split_rec(s, sep, start, i + 1);
    }
}

/// `join` undoes `split`.
pub proof fn lemma_join_split(s: Seq<char>, sep: Seq<char>)
    requires
        sep.len() > 0,
    ensures
        join(split(s, sep), sep) == s,
{
    lemma_join_split_rec(s, sep, 0, 0);
    assert(s.subrange(0, s.len() as int) =~= s);
}

/// Without an occurrence of `sep` from `i` on, the split is one piece.
pub proof fn lemma_split_rec_none(s: Seq<char>, sep: Seq<char>, start: int, i: int)
    requires
        0 <= start <= i,
        forall|j: int| i <= j ==> !occurs_at(s, sep, j),
    ensures
        split_rec(s, sep, start, i) == seq![s.subrange(start, s.len() as int)],
    decreases s.len() - i,
{
    if sep.len() == 0 || i + sep.len() > s.len() {
    } else {
        lemma_split_rec_none(s, sep, start, i + 1);
    }
}

/// Splitting on a character that does not occur gives the text itself.
pub proof fn lemma_split_char_absent(s: Seq<char>, c: char)
    requires
        lacks(s, c),
    ensures
        split(s, seq![c]) == seq![s],
{
    assert forall|j: int| 0 <= j implies !occurs_at(s, seq![c], j) by {
        if occurs_at(s, seq![c], j) {
            assert(s.subrange(j, j + 1)[0] == s[j]);
        }
    }
    lemma_split_rec_none(s, seq![c], 0, 0);
    assert(s.subrange(0, s.len() as int) =~= s);
}

/// The pieces of a split on `c` do not hold `c`.
pub proof fn lemma_split_rec_char_pieces(s: Seq<char>, c: char, start: int, i: int)
    requires
        0 <= start <= i <= s.len(),
        forall|j: int| start <= j < i ==> s[j] != c,
    ensures
        forall|k: int|
            0 <= k < split_rec(s, seq![c], start, i).len() ==> lacks(
                #[trigger] split_rec(s, seq![c], start, i)[k],
                c,
            ),
    decreases s.len() - i,
{
    let sep = seq![c];
    let r = split_rec(s, sep, start, i);
    if i + 1 > s.len() {
        assert(r == seq![s.subrange(start, s.len() as int)]);
        assert(lacks(s.subrange(start, s.len() as int), c));
        assert forall|k: int| 0 <= k < r.len() implies lacks(#[trigger] r[k], c) by {
            assert(r[k] == s.subrange(start, s.len() as int));
        }
    } else if occurs_at(s, sep, i) {
        lemma_split_rec_char_pieces(s, c, i + 1, i + 1);
        let rest = split_rec(s, sep, i + 1, i + 1);
        assert(r == seq![s.subrange(start, i)] + rest);
        assert forall|k: int| 0 <= k < r.len() implies lacks(#[trigger] r[k], c) by {
            if k == 0 {
                assert(r[k] == s.subrange(start, i));
            } else {
                assert(r[k] == rest[k - 1]);
            }
        }
    } else {
        assert(s.subrange(i, i + 1) =~= seq![s[i]]);
        lemma_split_rec_char_pieces(s, c, start, i + 1);
        assert(r == split_rec(s, sep, start, i + 1));
    }
}

/// The pieces of a split do not hold a character that the text lacks.
pub proof fn lemma_split_rec_keeps_lacks(s: Seq<char>, sep: Seq<char>, start: int, i: int, d: char)
    requires
        0 <= start <= i,
        start <= s.len(),
        lacks(s, d),
    ensures
        forall|k: int|
            0 <= k < split_rec(s, sep, start, i).len() ==> lacks(
                #[trigger] split_rec(s, sep, start, i)[k],
                d,
            ),
    decreases s.len() - i,
{
    let r = split_rec(s, sep, start, i);
    if sep.len() == 0 || i + sep.len() > s.len() {
        assert(r == seq![s.subrange(start, s.len() as int)]);
        assert(lacks(s.subrange(start, s.len() as int), d));
        assert forall|k: int| 0 <= k < r.len() implies lacks(#[trigger] r[k], d) by {
            assert(r[k] == s.subrange(start, s.len() as int));
        }
    } else if occurs_at(s, sep, i) {
        lemma_split_rec_keeps_lacks(s, sep, i + sep.len(), i + sep.len(), d);
        let rest = split_rec(s, sep, i + sep.len(), i + sep.len());
        assert(r == seq![s.subrange(start, i)] + rest);
        assert forall|k: int| 0 <= k < r.len() implies lacks(#[trigger] r[k], d) by {
            if k == 0 {
                assert(r[k] == s.subrange(start, i));
            } else {
                assert(r[k] == rest[k - 1]);
            }
        }
    } else {
        lemma_split_rec_keeps_lacks(s, sep, start, i + 1, d);
        assert(r == split_rec(s, sep, start, i + 1));
    }
}

/// Dropping empty pieces keeps a property of every piece.
pub proof fn lemma_nonempty_lacks(parts: Seq<Seq<char>>, d: char)
    requires
        forall|k: int| 0 <= k < parts.len() ==> lacks(#[trigger] parts[k], d),
    ensures
        forall|k: int| 0 <= k < nonempty(parts).len() ==> lacks(#[trigger] nonempty(parts)[k], d),
    decreases parts.len(),
{
    if parts.len() > 0 {
        assert forall|k: int| 0 <= k < parts.drop_last().len() implies lacks(
            #[trigger] parts.drop_last()[k],
            d,
        ) by {
            assert(parts.drop_last()[k] == parts[k]);
        }
        lemma_nonempty_lacks(parts.drop_last(), d);
        assert(lacks(parts[parts.len() - 1], d));
        let n = nonempty(parts);
        let m = nonempty(parts.drop_last());
        assert forall|k: int| 0 <= k < n.len() implies lacks(#[trigger] n[k], d) by {
            if parts.last().len() > 0 {
                assert(n == m.push(parts.last()));
                if k < m.len() {
                    assert(n[k] == m[k]);
                }
            } else {
                assert(n == m);
            }
        }
    }
}

/// Joining pieces that lack `d` with a separator that lacks `d` gives text
/// that lacks `d`.
pub proof fn lemma_join_lacks(parts: Seq<Seq<char>>, sep: Seq<char>, d: char)
    requires
        forall|k: int| 0 <= k < parts.len() ==> lacks(#[trigger] parts[k], d),
        lacks(sep, d),
    ensures
        lacks(join(parts, sep), d),
    decreases parts.len(),
{
    if parts.len() > 1 {
        assert forall|k: int| 0 <= k < parts.drop_last().len() implies lacks(
            #[trigger] parts.drop_last()[k],
            d,
        ) by {
            assert(parts.drop_last()[k] == parts[k]);
        }
        lemma_join_lacks(parts.drop_last(), sep, d);
        assert(lacks(parts[parts.len() - 1], d));
        let j = join(parts.drop_last(), sep);
        assert forall|i: int| 0 <= i < join(parts, sep).len() implies join(parts, sep)[i] != d by {
            if i < j.len() {
                assert(join(parts, sep)[i] == j[i]);
            } else if i < j.len() + sep.len() {
                assert(join(parts, sep)[i] == sep[i - j.len()]);
            } else {
                assert(join(parts, sep)[i] == parts.last()[i - j.len() - sep.len()]);
            }
        }
    } else if parts.len() == 1 {
        assert(lacks(parts[0], d));
    }
}

/// Trimming keeps only characters of `s`: what `s` lacks, its trim lacks.
pub proof fn lemma_trim_keeps_lacks(s: Seq<char>, c: char)
    requires
        lacks(s, c),
    ensures
        lacks(trim(s), c),
{
    lemma_back_ws_bounds(s, s.len() as int);
    let e = trim_end(s);
    lemma_skip_ws_bounds(e, 0);
    assert forall|i: int| 0 <= i < trim(s).len() implies trim(s)[i] != c by {
        assert(trim(s)[i] == e[skip_ws(e, 0) + i]);
        assert(e[skip_ws(e, 0) + i] == s[skip_ws(e, 0) + i]);
    }
}

/// Splitting `pre + y` from inside `y` is splitting `y`.
pub proof fn lemma_split_rec_shift(pre: Seq<char>, y: Seq<char>, sep: Seq<char>, start: int, j: int)
    requires
        pre.len() <= start <= j <= pre.len() + y.len(),
    ensures
        split_rec(pre + y, sep, start, j) == split_rec(y, sep, start - pre.len(), j - pre.len()),
    decreases (pre + y).len() - j,
{
    let s = pre + y;
    let k = pre.len() as int;
    if sep.len() == 0 || j + sep.len() > s.len() {
        assert(s.subrange(start, s.len() as int) =~= y.subrange(start - k, y.len() as int));
    } else {
        assert(s.subrange(j, j + sep.len()) =~= y.subrange(j - k, j - k + sep.len()));
        if occurs_at(s, sep, j) {
            assert(s.subrange(start, j) =~= y.subrange(start - k, j - k));
            lemma_split_rec_shift(pre, y, sep, j + sep.len(), j + sep.len());
        } else {
            lemma_split_rec_shift(pre, y, sep, start, j + 1);
        }
    }
}

/// Splitting on `c` a text whose first `c` follows `x` gives `x`, then the
/// pieces of what follows that `c`.
pub proof fn lemma_split_first_piece(x: Seq<char>, c: char, y: Seq<char>)
    requires
        lacks(x, c),
    ensures
        split(x + seq![c] + y, seq![c]) == seq![x] + split(y, seq![c]),
{
    let s = x + seq![c] + y;
    lemma_split_first_piece_from(x, c, y, 0);
    lemma_split_rec_shift(x + seq![c], y, seq![c], x.len() + 1int, x.len() + 1int);
    assert(x + seq![c] + y =~= (x + seq![c]) + y);
}

proof fn lemma_split_first_piece_from(x: Seq<char>, c: char, y: Seq<char>, i: int)
    requires
        lacks(x, c),
        0 <= i <= x.len(),
    ensures
        split_rec(x + seq![c] + y, seq![c], 0, i) == seq![x] + split_rec(
            x + seq![c] + y,
            seq![c],
            x.len() + 1int,
            x.len() + 1int,
        ),
    decreases x.len() - i,
{
    let s = x + seq![c] + y;
    assert(s.subrange(i, i + 1) =~= seq![s[i]]);
    if i < x.len() {
        assert(s[i] == x[i]);
        assert(x[i] != c);
        assert(s.subrange(i, i + 1)[0] == s[i]);
        assert(!occurs_at(s, seq![c], i));
        lemma_split_first_piece_from(x, c, y, i + 1);
    } else {
        assert(s[i] == c);
        assert(occurs_at(s, seq![c], i));
        assert(s.subrange(0, i) =~= x);
    }
}

/// Splitting a text in which `sep` first occurs right after `x` gives `x`,
/// then the pieces of what follows that `sep`.
pub proof fn lemma_split_first_piece_sep(x: Seq<char>, sep: Seq<char>, y: Seq<char>)
    requires
        sep.len() > 0,
        forall|k: int| 0 <= k < x.len() ==> !occurs_at(x + sep + y, sep, k),
    ensures
        split(x + sep + y, sep) == seq![x] + split(y, sep),
{
    lemma_split_first_piece_sep_from(x, sep, y, 0);
    lemma_split_rec_shift(x + sep, y, sep, (x.len() + sep.len()) as int, (x.len() + sep.len()) as int);
    assert(x + sep + y =~= (x + sep) + y);
}

proof fn lemma_split_first_piece_sep_from(x: Seq<char>, sep: Seq<char>, y: Seq<char>, i: int)
    requires
        sep.len() > 0,
        forall|k: int| 0 <= k < x.len() ==> !occurs_at(x + sep + y, sep, k),
        0 <= i <= x.len(),
    ensures
        split_rec(x + sep + y, sep, 0, i) == seq![x] + split_rec(
            x + sep + y,
            sep,
            (x.len() + sep.len()) as int,
            (x.len() + sep.len()) as int,
        ),
    decreases x.len() - i,
{
    let s = x + sep + y;
    if i < x.len() {
        assert(!occurs_at(s, sep, i));
        lemma_split_first_piece_sep_from(x, sep, y, i + 1);
    } else {
        assert(s.subrange(i, i + sep.len()) =~= sep);
        assert(s.subrange(0, i) =~= x);
    }
}

/// Splitting on whitespace from inside `y` in `pre + y` is splitting `y`.
pub proof fn lemma_split_ws_shift(pre: Seq<char>, y: Seq<char>, start: int, j: int)
    requires
        pre.len() <= start <= j <= pre.len() + y.len(),
    ensures
        split_ws_rec(pre + y, start, j) == split_ws_rec(y, start - pre.len(), j - pre.len()),
    decreases (pre + y).len() - j,
{
    let s = pre + y;
    let k = pre.len() as int;
    if j >= s.len() {
        assert(s.subrange(start, s.len() as int) =~= y.subrange(start - k, y.len() as int));
    } else {
        assert(s[j] == y[j - k]);
        if is_whitespace(s[j]) {
            assert(s.subrange(start, j) =~= y.subrange(start - k, j - k));
            lemma_split_ws_shift(pre, y, j + 1, j + 1);
        } else {
            lemma_split_ws_shift(pre, y, start, j + 1);
        }
    }
}

/// A word `x` (no whitespace in it) followed by a space starts the
/// whitespace split.
pub proof fn lemma_split_ws_first_word(x: Seq<char>, y: Seq<char>)
    requires
        forall|k: int| 0 <= k < x.len() ==> !is_whitespace(#[trigger] x[k]),
    ensures
        split_ws_rec(x + seq![' '] + y, 0, 0) == seq![x] + split_ws_rec(y, 0, 0),
{
    lemma_split_ws_first_word_from(x, y, 0);
    lemma_split_ws_shift(x + seq![' '], y, x.len() + 1int, x.len() + 1int);
    assert(x + seq![' '] + y =~= (x + seq![' ']) + y);
}

proof fn lemma_split_ws_first_word_from(x: Seq<char>, y: Seq<char>, i: int)
    requires
        forall|k: int| 0 <= k < x.len() ==> !is_whitespace(#[trigger] x[k]),
        0 <= i <= x.len(),
    ensures
        split_ws_rec(x + seq![' '] + y, 0, i) == seq![x] + split_ws_rec(
            x + seq![' '] + y,
            x.len() + 1int,
            x.len() + 1int,
        ),
    decreases x.len() - i,
{
    let s = x + seq![' '] + y;
    if i < x.len() {
        assert(s[i] == x[i]);
        lemma_split_ws_first_word_from(x, y, i + 1);
    } else {
        assert(s[i] == ' ');
        assert(s.subrange(0, i) =~= x);
    }
}

/// A text without whitespace is one piece.
pub proof fn lemma_split_ws_none(x: Seq<char>, i: int)
    requires
        forall|k: int| 0 <= k < x.len() ==> !is_whitespace(#[trigger] x[k]),
        0 <= i <= x.len(),
    ensures
        split_ws_rec(x, 0, i) == seq![x],
    decreases x.len() - i,
{
    if i < x.len() {
        lemma_split_ws_none(x, i + 1);
    } else {
        assert(x.subrange(0, x.len() as int) =~= x);
    }
}

} // verus!
