//! Character-level text handling: the whitespace, splitting, trimming,
//! joining and decimal rules of Rust's `str`, stated over `Seq<char>` and
//! implemented over `Vec<char>`.
use vstd::prelude::*;

verus! {

broadcast use vstd::seq::group_seq_axioms;

// ---------------------------------------------------------------------------
// Specifications
// ---------------------------------------------------------------------------

/// Unicode `White_Space`, the property behind `char::is_whitespace`.
pub open spec fn is_ws(c: char) -> bool {
    ||| ('\t' <= c && c <= '\r')
    ||| c == ' '
    ||| c == '\u{85}'
    ||| c == '\u{a0}'
    ||| c == '\u{1680}'
    ||| ('\u{2000}' <= c && c <= '\u{200a}')
    ||| c == '\u{2028}'
    ||| c == '\u{2029}'
    ||| c == '\u{202f}'
    ||| c == '\u{205f}'
    ||| c == '\u{3000}'
}

/// `s` without its leading whitespace.
pub open spec fn trim_start(s: Seq<char>) -> Seq<char>
    decreases s.len(),
{
    if s.len() > 0 && is_ws(s[0]) {
        trim_start(s.drop_first())
    } else {
        s
    }
}

/// `s` without its trailing whitespace.
pub open spec fn trim_end(s: Seq<char>) -> Seq<char>
    decreases s.len(),
{
    if s.len() > 0 && is_ws(s.last()) {
        trim_end(s.drop_last())
    } else {
        s
    }
}

/// `s` without leading and trailing whitespace (`str::trim`).
pub open spec fn trim(s: Seq<char>) -> Seq<char> {
    trim_end(trim_start(s))
}

/// `s` without any leading or trailing occurrence of `c` (`str::trim_matches`).
pub open spec fn trim_char(s: Seq<char>, c: char) -> Seq<char>
    decreases s.len(),
{
    if s.len() > 0 && s[0] == c {
        trim_char(s.drop_first(), c)
    } else if s.len() > 0 && s.last() == c {
        trim_char(s.drop_last(), c)
    } else {
        s
    }
}

/// The pieces of `s` between occurrences of `sep` (`str::split` on a `char`).
pub open spec fn split_char(s: Seq<char>, sep: char) -> Seq<Seq<char>>
    decreases s.len(),
{
    if s.len() == 0 {
        seq![Seq::empty()]
    } else {
        let prev = split_char(s.drop_last(), sep);
        if s.last() == sep {
            prev.push(Seq::empty())
        } else {
            prev.update(prev.len() - 1, prev.last().push(s.last()))
        }
    }
}

/// The pieces of `s` between whitespace characters, empty pieces included.
pub open spec fn split_ws_raw(s: Seq<char>) -> Seq<Seq<char>>
    decreases s.len(),
{
    if s.len() == 0 {
        seq![Seq::empty()]
    } else {
        let prev = split_ws_raw(s.drop_last());
        if is_ws(s.last()) {
            prev.push(Seq::empty())
        } else {
            prev.update(prev.len() - 1, prev.last().push(s.last()))
        }
    }
}

/// The non-empty members of `ps`, in order.
pub open spec fn nonempty_pieces(ps: Seq<Seq<char>>) -> Seq<Seq<char>>
    decreases ps.len(),
{
    if ps.len() == 0 {
        ps
    } else {
        let rest = nonempty_pieces(ps.drop_last());
        if ps.last().len() > 0 {
            rest.push(ps.last())
        } else {
            rest
        }
    }
}

/// The non-empty runs of non-whitespace characters (`str::split_whitespace`).
pub open spec fn split_whitespace(s: Seq<char>) -> Seq<Seq<char>> {
    nonempty_pieces(split_ws_raw(s))
}

/// The pieces of `s` between occurrences of the two-character separator
/// `[a, b]` (`str::split` on a two-character `&str`; for `a != b` the
/// occurrences cannot overlap, so cutting from the right gives the same pieces).
pub open spec fn split_pair(s: Seq<char>, a: char, b: char) -> Seq<Seq<char>>
    decreases s.len(),
{
    if s.len() == 0 {
        seq![Seq::empty()]
    } else if s.len() >= 2 && s[s.len() - 2] == a && s.last() == b {
        split_pair(s.take(s.len() - 2), a, b).push(Seq::empty())
    } else {
        let prev = split_pair(s.drop_last(), a, b);
        prev.update(prev.len() - 1, prev.last().push(s.last()))
    }
}

/// `s` without one trailing carriage return.
pub open spec fn strip_cr(s: Seq<char>) -> Seq<char> {
    if s.len() > 0 && s.last() == '\r' {
        s.drop_last()
    } else {
        s
    }
}

/// The lines of `s` (`str::lines`): pieces ended by `\n` or `\r\n`; a final
/// line ending is optional and an empty final piece is not a line.
pub open spec fn lines(s: Seq<char>) -> Seq<Seq<char>> {
    let parts = split_char(s, '\n');
    let body = parts.drop_last().map_values(|p: Seq<char>| strip_cr(p));
    if parts.last().len() == 0 {
        body
    } else {
        body.push(parts.last())
    }
}

/// `parts` joined with `sep` between neighbours (`[T]::join`).
pub open spec fn join(parts: Seq<Seq<char>>, sep: Seq<char>) -> Seq<char>
    decreases parts.len(),
{
    if parts.len() == 0 {
        Seq::empty()
    } else if parts.len() == 1 {
        parts[0]
    } else {
        join(parts.drop_last(), sep) + sep + parts.last()
    }
}

/// Whether `p` occurs in `s` at position `i`.
pub open spec fn occurs_at(s: Seq<char>, p: Seq<char>, i: int) -> bool {
    0 <= i && i + p.len() <= s.len() && s.subrange(i, i + p.len()) == p
}

/// Whether `p` occurs anywhere in `s` (`str::contains`).
pub open spec fn contains(s: Seq<char>, p: Seq<char>) -> bool {
    exists|i: int| occurs_at(s, p, i)
}

/// Whether `s` begins with `p` (`str::starts_with`).
pub open spec fn starts_with(s: Seq<char>, p: Seq<char>) -> bool {
    occurs_at(s, p, 0)
}

/// The ASCII digit for `d` in `0..10`.
pub open spec fn digit_char(d: int) -> char {
    if d == 0 {
        '0'
    } else if d == 1 {
        '1'
    } else if d == 2 {
        '2'
    } else if d == 3 {
        '3'
    } else if d == 4 {
        '4'
    } else if d == 5 {
        '5'
    } else if d == 6 {
        '6'
    } else if d == 7 {
        '7'
    } else if d == 8 {
        '8'
    } else {
        '9'
    }
}

/// The value of the ASCII digit `c`.
pub open spec fn digit_value(c: char) -> nat {
    if c == '1' {
        1
    } else if c == '2' {
        2
    } else if c == '3' {
        3
    } else if c == '4' {
        4
    } else if c == '5' {
        5
    } else if c == '6' {
        6
    } else if c == '7' {
        7
    } else if c == '8' {
        8
    } else if c == '9' {
        9
    } else {
        0
    }
}

/// The decimal digits of `n`, most significant first.
pub open spec fn nat_digits(n: nat) -> Seq<char>
    decreases n,
{
    if n < 10 {
        seq![digit_char(n as int)]
    } else {
        nat_digits(n / 10).push(digit_char((n % 10) as int))
    }
}

/// The decimal text of `n` as Rust's `Display` writes integers.
pub open spec fn decimal(n: int) -> Seq<char> {
    if n < 0 {
        seq!['-'] + nat_digits((-n) as nat)
    } else {
        nat_digits(n as nat)
    }
}

/// Whether `c` is an ASCII digit.
pub open spec fn is_digit(c: char) -> bool {
    '0' <= c && c <= '9'
}

/// Whether every character of `s` is an ASCII digit.
pub open spec fn all_digits(s: Seq<char>) -> bool {
    forall|i: int| 0 <= i < s.len() ==> is_digit(#[trigger] s[i])
}

/// The value of a string of decimal digits.
pub open spec fn digits_value(s: Seq<char>) -> nat
    decreases s.len(),
{
    if s.len() == 0 {
        0
    } else {
        digits_value(s.drop_last()) * 10 + digit_value(s.last())
    }
}

/// The integer that `str::parse` reads from `s`, before the range check of
/// the target type: an optional sign (`-` only when `signed`), then one or
/// more ASCII digits.
pub open spec fn parse_int(s: Seq<char>, signed: bool) -> Option<int> {
    if s.len() == 0 {
        None
    } else if (s[0] == '+' || s[0] == '-') && s.len() == 1 {
        None
    } else if s[0] == '-' && signed {
        if all_digits(s.drop_first()) {
            Some(-(digits_value(s.drop_first()) as int))
        } else {
            None
        }
    } else if s[0] == '+' {
        if all_digits(s.drop_first()) {
            Some(digits_value(s.drop_first()) as int)
        } else {
            None
        }
    } else if all_digits(s) {
        Some(digits_value(s) as int)
    } else {
        None
    }
}

/// What `s.parse::<i64>()` gives.
pub open spec fn parse_i64(s: Seq<char>) -> Option<int> {
    match parse_int(s, true) {
        Some(v) => if i64::MIN <= v <= i64::MAX { Some(v) } else { None },
        None => None,
    }
}

/// What `s.parse::<i32>()` gives.
pub open spec fn parse_i32(s: Seq<char>) -> Option<int> {
    match parse_int(s, true) {
        Some(v) => if i32::MIN <= v <= i32::MAX { Some(v) } else { None },
        None => None,
    }
}

/// What `s.parse::<u64>()` gives.
pub open spec fn parse_u64(s: Seq<char>) -> Option<int> {
    match parse_int(s, false) {
        Some(v) => if 0 <= v <= u64::MAX { Some(v) } else { None },
        None => None,
    }
}

/// The views of a sequence of character vectors.
pub open spec fn pieces(v: Seq<Vec<char>>) -> Seq<Seq<char>> {
    v.map_values(|w: Vec<char>| w@)
}

/// The views of a sequence of strings.
pub open spec fn views(v: Seq<String>) -> Seq<Seq<char>> {
    v.map_values(|s: String| s@)
}


// ---------------------------------------------------------------------------
// Lemmas
// ---------------------------------------------------------------------------

/// `split_char` always yields at least one piece.
pub proof fn lemma_split_char_len(s: Seq<char>, sep: char)
    ensures
        split_char(s, sep).len() >= 1,
    decreases s.len(),
{
    if s.len() > 0 {
        lemma_split_char_len(s.drop_last(), sep);
    }
}

/// `split_ws_raw` always yields at least one piece.
pub proof fn lemma_split_ws_raw_len(s: Seq<char>)
    ensures
        split_ws_raw(s).len() >= 1,
    decreases s.len(),
{
    if s.len() > 0 {
        lemma_split_ws_raw_len(s.drop_last());
    }
}

// ---------------------------------------------------------------------------
// Executable counterparts
// ---------------------------------------------------------------------------

/// The characters of `s`.
pub fn chars_of(s: &str) -> (v: Vec<char>)
    ensures
        v@ == s@,
{
    let n = s.unicode_len();
    let mut v: Vec<char> = Vec::new();
    let mut i: usize = 0;
    while i < n
        invariant
            n == s@.len(),
            i <= n,
            v@ == s@.take(i as int),
        decreases n - i,
    {
        v.push(s.get_char(i));
        i = i + 1;
        assert(v@ =~= s@.take(i as int));
    }
    assert(v@ =~= s@);
    v
}

/// Calls `String::from_iter` on the characters of `chars`: a `String`
/// holding those characters, in order.
#[verifier::external_body]
pub(crate) fn string_of(chars: &[char]) -> (s: String)
    ensures
        s@ == chars@,
{
    String::from_iter(chars)
}

/// The characters of `v` from `start` up to `end`.
pub fn sub_vec(v: &Vec<char>, start: usize, end: usize) -> (r: Vec<char>)
    requires
        start <= end <= v@.len(),
    ensures
        r@ == v@.subrange(start as int, end as int),
{
    let mut r: Vec<char> = Vec::new();
    let mut i: usize = start;
    while i < end
        invariant
            start <= i <= end,
            end <= v@.len(),
            r@ == v@.subrange(start as int, i as int),
        decreases end - i,
    {
        r.push(v[i]);
        i = i + 1;
        assert(r@ =~= v@.subrange(start as int, i as int));
    }
    r
}

/// `c` is whitespace in the sense of `char::is_whitespace`.
pub fn char_is_ws(c: char) -> (b: bool)
    ensures
        b == is_ws(c),
{
    ('\t' <= c && c <= '\r') || c == ' ' || c == '\u{85}' || c == '\u{a0}' || c == '\u{1680}'
        || ('\u{2000}' <= c && c <= '\u{200a}') || c == '\u{2028}' || c == '\u{2029}'
        || c == '\u{202f}' || c == '\u{205f}' || c == '\u{3000}'
}

/// `trim_start` of a suffix: skipping one leading whitespace character.
proof fn lemma_trim_start_step(s: Seq<char>, i: int)
    requires
        0 <= i < s.len(),
        is_ws(s[i]),
    ensures
        trim_start(s.subrange(i, s.len() as int)) == trim_start(s.subrange(i + 1, s.len() as int)),
{
    let t = s.subrange(i, s.len() as int);
    assert(t.drop_first() =~= s.subrange(i + 1, s.len() as int));
}

/// `trim_end` of a prefix: dropping one trailing whitespace character.
proof fn lemma_trim_end_step(s: Seq<char>, j: int)
    requires
        0 < j <= s.len(),
        is_ws(s[j - 1]),
    ensures
        trim_end(s.subrange(0, j)) == trim_end(s.subrange(0, j - 1)),
{
    let t = s.subrange(0, j);
    assert(t.drop_last() =~= s.subrange(0, j - 1));
}

/// The characters of `v` without leading and trailing whitespace.
pub fn trim_chars(v: &Vec<char>) -> (r: Vec<char>)
    ensures
        r@ == trim(v@),
{
    let n = v.len();
    let mut i: usize = 0;
    assert(v@.subrange(0, n as int) =~= v@);
    while i < n && char_is_ws(v[i])
        invariant
            n == v@.len(),
            i <= n,
            trim_start(v@) == trim_start(v@.subrange(i as int, n as int)),
        decreases n - i,
    {
        proof {
            lemma_trim_start_step(v@, i as int);
        }
        i = i + 1;
    }
    assert(v@.subrange(0, n as int) =~= v@);
    let ghost rest = v@.subrange(i as int, n as int);
    assert(trim_start(rest) == rest);
    let mut j: usize = n;
    while j > i && char_is_ws(v[j - 1])
        invariant
            n == v@.len(),
            i <= j <= n,
            rest == v@.subrange(i as int, n as int),
            trim_end(rest) == trim_end(v@.subrange(i as int, j as int)),
        decreases j,
    {
        proof {
            let t = v@.subrange(i as int, j as int);
            assert(t.drop_last() =~= v@.subrange(i as int, j - 1));
        }
        j = j - 1;
    }
    let r = sub_vec(v, i, j);
    proof {
        let t = v@.subrange(i as int, j as int);
        assert(trim_end(t) == t);
    }
    r
}

/// The pieces of `v` between occurrences of `sep`.
pub fn split_chars(v: &Vec<char>, sep: char) -> (r: Vec<Vec<char>>)
    ensures
        pieces(r@) == split_char(v@, sep),
{
    let n = v.len();
    let mut done: Vec<Vec<char>> = Vec::new();
    let mut cur: Vec<char> = Vec::new();
    let mut i: usize = 0;
    assert(v@.take(0) =~= Seq::<char>::empty());
    assert(pieces(done@).push(cur@) =~= split_char(v@.take(0), sep));
    while i < n
        invariant
            n == v@.len(),
            i <= n,
            pieces(done@).push(cur@) == split_char(v@.take(i as int), sep),
        decreases n - i,
    {
        let ghost prev = split_char(v@.take(i as int), sep);
        proof {
            lemma_split_char_len(v@.take(i as int), sep);
            assert(v@.take(i + 1).drop_last() =~= v@.take(i as int));
        }
        let c = v[i];
        let ghost before = pieces(done@);
        if c == sep {
            let finished = cur;
            done.push(finished);
            cur = Vec::new();
            assert(pieces(done@) =~= before.push(finished@));
            assert(pieces(done@).push(cur@) =~= prev.push(Seq::empty()));
        } else {
            cur.push(c);
            assert(pieces(done@).push(cur@) =~= prev.update(
                prev.len() - 1,
                prev.last().push(c),
            ));
        }
        i = i + 1;
    }
    assert(v@.take(n as int) =~= v@);
    let ghost before = pieces(done@);
    let ghost last = cur@;
    done.push(cur);
    assert(pieces(done@) =~= before.push(last));
    done
}


/// Appends the characters of `other` to `v`.
pub fn append_chars(v: &mut Vec<char>, other: &Vec<char>)
    ensures
        final(v)@ == old(v)@ + other@,
{
    let n = other.len();
    let mut i: usize = 0;
    while i < n
        invariant
            n == other@.len(),
            i <= n,
            v@ == old(v)@ + other@.take(i as int),
        decreases n - i,
    {
        v.push(other[i]);
        i = i + 1;
        assert(v@ =~= old(v)@ + other@.take(i as int));
    }
    assert(other@.take(n as int) =~= other@);
}

/// A copy of `v`.
pub fn copy_chars(v: &Vec<char>) -> (r: Vec<char>)
    ensures
        r@ == v@,
{
    let r = sub_vec(v, 0, v.len());
    assert(v@.subrange(0, v@.len() as int) =~= v@);
    r
}

/// `v` without one trailing carriage return.
pub fn strip_cr_chars(v: &Vec<char>) -> (r: Vec<char>)
    ensures
        r@ == strip_cr(v@),
{
    let n = v.len();
    if n > 0 && v[n - 1] == '\r' {
        let r = sub_vec(v, 0, n - 1);
        assert(r@ =~= v@.drop_last());
        r
    } else {
        copy_chars(v)
    }
}

/// The lines of `v`, as `str::lines` yields them.
pub fn lines_of(v: &Vec<char>) -> (r: Vec<Vec<char>>)
    ensures
        pieces(r@) == lines(v@),
{
    let parts = split_chars(v, '\n');
    proof {
        lemma_split_char_len(v@, '\n');
    }
    let ghost ps = split_char(v@, '\n');
    let k = parts.len();
    let mut r: Vec<Vec<char>> = Vec::new();
    let mut i: usize = 0;
    while i + 1 < k
        invariant
            k == parts@.len(),
            k >= 1,
            pieces(parts@) == ps,
            i + 1 <= k,
            pieces(r@) == ps.take(i as int).map_values(|p: Seq<char>| strip_cr(p)),
        decreases k - i,
    {
        let q = strip_cr_chars(&parts[i]);
        let ghost before = pieces(r@);
        r.push(q);
        assert(pieces(r@) =~= before.push(strip_cr(ps[i as int])));
        i = i + 1;
        assert(pieces(r@) =~= ps.take(i as int).map_values(|p: Seq<char>| strip_cr(p)));
    }
    assert(ps.take(i as int) =~= ps.drop_last());
    if parts[k - 1].len() != 0 {
        let last = copy_chars(&parts[k - 1]);
        let ghost before = pieces(r@);
        r.push(last);
        assert(pieces(r@) =~= before.push(ps.last()));
    }
    r
}

/// The pieces of `v` between whitespace characters, empty pieces included.
pub fn split_ws_raw_chars(v: &Vec<char>) -> (r: Vec<Vec<char>>)
    ensures
        pieces(r@) == split_ws_raw(v@),
{
    let n = v.len();
    let mut done: Vec<Vec<char>> = Vec::new();
    let mut cur: Vec<char> = Vec::new();
    let mut i: usize = 0;
    assert(v@.take(0) =~= Seq::<char>::empty());
    assert(pieces(done@).push(cur@) =~= split_ws_raw(v@.take(0)));
    while i < n
        invariant
            n == v@.len(),
            i <= n,
            pieces(done@).push(cur@) == split_ws_raw(v@.take(i as int)),
        decreases n - i,
    {
        let ghost prev = split_ws_raw(v@.take(i as int));
        proof {
            lemma_split_ws_raw_len(v@.take(i as int));
            assert(v@.take(i + 1).drop_last() =~= v@.take(i as int));
        }
        let c = v[i];
        let ghost before = pieces(done@);
        if char_is_ws(c) {
            let finished = cur;
            done.push(finished);
            cur = Vec::new();
            assert(pieces(done@) =~= before.push(finished@));
            assert(pieces(done@).push(cur@) =~= prev.push(Seq::empty()));
        } else {
            cur.push(c);
            assert(pieces(done@).push(cur@) =~= prev.update(
                prev.len() - 1,
                prev.last().push(c),
            ));
        }
        i = i + 1;
    }
    assert(v@.take(n as int) =~= v@);
    let ghost before = pieces(done@);
    let ghost last = cur@;
    done.push(cur);
    assert(pieces(done@) =~= before.push(last));
    done
}

/// The non-empty members of `ps`, in order.
pub fn keep_nonempty(ps: Vec<Vec<char>>) -> (r: Vec<Vec<char>>)
    ensures
        pieces(r@) == nonempty_pieces(pieces(ps@)),
{
    let n = ps.len();
    let mut r: Vec<Vec<char>> = Vec::new();
    let mut i: usize = 0;
    let ghost all = pieces(ps@);
    assert(all.take(0) =~= Seq::<Seq<char>>::empty());
    while i < n
        invariant
            n == ps@.len(),
            all == pieces(ps@),
            i <= n,
            pieces(r@) == nonempty_pieces(all.take(i as int)),
        decreases n - i,
    {
        assert(all.take(i + 1).drop_last() =~= all.take(i as int));
        if ps[i].len() > 0 {
            let q = copy_chars(&ps[i]);
            let ghost before = pieces(r@);
            r.push(q);
            assert(pieces(r@) =~= before.push(all[i as int]));
        }
        i = i + 1;
    }
    assert(all.take(n as int) =~= all);
    r
}

/// The non-empty runs of non-whitespace characters of `v`.
pub fn split_whitespace_chars(v: &Vec<char>) -> (r: Vec<Vec<char>>)
    ensures
        pieces(r@) == split_whitespace(v@),
{
    keep_nonempty(split_ws_raw_chars(v))
}

/// `parts` joined with `sep` between neighbours.
pub fn join_chars(parts: &Vec<Vec<char>>, sep: &Vec<char>) -> (r: Vec<char>)
    ensures
        r@ == join(pieces(parts@), sep@),
{
    let n = parts.len();
    let ghost all = pieces(parts@);
    let mut r: Vec<char> = Vec::new();
    let mut i: usize = 0;
    assert(all.take(0) =~= Seq::<Seq<char>>::empty());
    while i < n
        invariant
            n == parts@.len(),
            all == pieces(parts@),
            i <= n,
            r@ == join(all.take(i as int), sep@),
        decreases n - i,
    {
        assert(all.take(i + 1).drop_last() =~= all.take(i as int));
        if i > 0 {
            append_chars(&mut r, sep);
        }
        append_chars(&mut r, &parts[i]);
        i = i + 1;
        if i == 1 {
            assert(r@ =~= all.take(1)[0]);
        }
    }
    assert(all.take(n as int) =~= all);
    r
}

/// Whether `v` and `w` hold the same characters.
pub fn chars_eq(v: &Vec<char>, w: &Vec<char>) -> (b: bool)
    ensures
        b == (v@ == w@),
{
    if v.len() != w.len() {
        return false;
    }
    let n = v.len();
    let mut i: usize = 0;
    while i < n
        invariant
            n == v@.len(),
            n == w@.len(),
            i <= n,
            forall|j: int| 0 <= j < i ==> v@[j] == w@[j],
        decreases n - i,
    {
        if v[i] != w[i] {
            return false;
        }
        i = i + 1;
    }
    assert(v@ =~= w@);
    true
}

/// Whether `p` occurs in `v` at position `at`.
pub fn occurs_at_chars(v: &Vec<char>, p: &Vec<char>, at: usize) -> (b: bool)
    ensures
        b == occurs_at(v@, p@, at as int),
{
    if at > v.len() || p.len() > v.len() - at {
        return false;
    }
    let n = p.len();
    let lim = v.len();
    let mut i: usize = 0;
    while i < n
        invariant
            n == p@.len(),
            lim == v@.len(),
            at + n <= lim,
            i <= n,
            forall|j: int| 0 <= j < i ==> v@[at + j] == p@[j],
        decreases n - i,
    {
        if v[at + i] != p[i] {
            assert(v@.subrange(at as int, at + n)[i as int] != p@[i as int]);
            return false;
        }
        i = i + 1;
    }
    assert(v@.subrange(at as int, at + n) =~= p@);
    true
}

/// Whether `v` begins with `p`.
pub fn starts_with_chars(v: &Vec<char>, p: &Vec<char>) -> (b: bool)
    ensures
        b == starts_with(v@, p@),
{
    occurs_at_chars(v, p, 0)
}

/// Whether `p` occurs anywhere in `v`.
pub fn contains_chars(v: &Vec<char>, p: &Vec<char>) -> (b: bool)
    ensures
        b == contains(v@, p@),
{
    let n = v.len();
    let mut i: usize = 0;
    while i < n
        invariant
            n == v@.len(),
            i <= n,
            forall|j: int| 0 <= j < i ==> !occurs_at(v@, p@, j),
        decreases n - i,
    {
        if occurs_at_chars(v, p, i) {
            return true;
        }
        i = i + 1;
    }
    if occurs_at_chars(v, p, n) {
        return true;
    }
    assert forall|j: int| !occurs_at(v@, p@, j) by {
        if 0 <= j < n {
        } else if j == n {
        } else {
        }
    }
    false
}


/// The largest magnitude that the integer readers below report exactly.
pub const PARSE_CAP: u128 = 18446744073709551616;

/// The ASCII digit for `d`.
pub fn digit_of(d: u64) -> (c: char)
    requires
        d < 10,
    ensures
        c == digit_char(d as int),
{
    if d == 0 {
        '0'
    } else if d == 1 {
        '1'
    } else if d == 2 {
        '2'
    } else if d == 3 {
        '3'
    } else if d == 4 {
        '4'
    } else if d == 5 {
        '5'
    } else if d == 6 {
        '6'
    } else if d == 7 {
        '7'
    } else if d == 8 {
        '8'
    } else {
        '9'
    }
}

/// The value of the ASCII digit `c`.
pub fn value_of_digit(c: char) -> (d: u128)
    requires
        is_digit(c),
    ensures
        d == digit_value(c),
        d < 10,
{
    if c == '0' {
        0
    } else if c == '1' {
        1
    } else if c == '2' {
        2
    } else if c == '3' {
        3
    } else if c == '4' {
        4
    } else if c == '5' {
        5
    } else if c == '6' {
        6
    } else if c == '7' {
        7
    } else if c == '8' {
        8
    } else {
        9
    }
}

/// The decimal text of `n`.
pub fn nat_to_chars(n: u64) -> (r: Vec<char>)
    ensures
        r@ == nat_digits(n as nat),
{
    let mut cur: u64 = n;
    let mut acc: Vec<char> = Vec::new();
    while cur >= 10
        invariant
            nat_digits(n as nat) == nat_digits(cur as nat) + acc@,
        decreases cur,
    {
        let d = digit_of(cur % 10);
        let ghost before = acc@;
        acc.insert(0, d);
        assert(acc@ =~= seq![d] + before);
        assert(nat_digits(cur as nat) == nat_digits((cur / 10) as nat).push(d));
        assert(nat_digits(cur as nat) + before =~= nat_digits((cur / 10) as nat) + acc@);
        cur = cur / 10;
    }
    let d = digit_of(cur);
    let ghost before = acc@;
    acc.insert(0, d);
    assert(acc@ =~= nat_digits(cur as nat) + before);
    acc
}

/// The decimal text of `n`, as `n.to_string()` writes it.
pub fn int_to_chars(n: i64) -> (r: Vec<char>)
    ensures
        r@ == decimal(n as int),
{
    if n >= 0 {
        nat_to_chars(n as u64)
    } else {
        let magnitude: u64 = if n == i64::MIN {
            9223372036854775808u64
        } else {
            (0 - n) as u64
        };
        let digits = nat_to_chars(magnitude);
        let mut r: Vec<char> = Vec::new();
        r.push('-');
        append_chars(&mut r, &digits);
        assert(r@ =~= seq!['-'] + nat_digits((-n) as nat));
        r
    }
}

/// The decimal text of `n`, as `n.to_string()` writes it.
pub fn int_to_string(n: i64) -> (s: String)
    ensures
        s@ == decimal(n as int),
{
    let v = int_to_chars(n);
    string_of(v.as_slice())
}

/// The decimal text of the unsigned `n`.
pub fn nat_to_string(n: u64) -> (s: String)
    ensures
        s@ == decimal(n as int),
{
    let v = nat_to_chars(n);
    string_of(v.as_slice())
}

/// A longer string of digits has a value at least that of its prefixes.
pub proof fn lemma_digits_value_prefix(s: Seq<char>, k: int)
    requires
        0 <= k <= s.len(),
        all_digits(s),
    ensures
        digits_value(s.take(k)) <= digits_value(s),
    decreases s.len(),
{
    if k < s.len() {
        assert(all_digits(s.drop_last())) by {
            assert forall|i: int| 0 <= i < s.drop_last().len() implies is_digit(
                #[trigger] s.drop_last()[i],
            ) by {
                assert(s.drop_last()[i] == s[i]);
            }
        }
        lemma_digits_value_prefix(s.drop_last(), k);
        assert(s.drop_last().take(k) =~= s.take(k));
    } else {
        assert(s.take(k) =~= s);
    }
}

/// Reads the digits of `v` from `start` on, reporting values up to `PARSE_CAP`.
pub fn read_digits(v: &Vec<char>, start: usize) -> (r: Option<u128>)
    requires
        start <= v@.len(),
    ensures
        ({
            let t = v@.subrange(start as int, v@.len() as int);
            match r {
                Some(x) => all_digits(t) && x == digits_value(t) && x <= PARSE_CAP,
                None => !all_digits(t) || digits_value(t) > PARSE_CAP,
            }
        }),
{
    let n = v.len();
    let ghost t = v@.subrange(start as int, n as int);
    let mut acc: u128 = 0;
    let mut i: usize = start;
    assert(t.take(0) =~= Seq::<char>::empty());
    while i < n
        invariant
            n == v@.len(),
            start <= i <= n,
            t == v@.subrange(start as int, n as int),
            all_digits(t.take(i - start)),
            acc == digits_value(t.take(i - start)),
            acc <= PARSE_CAP,
        decreases n - i,
    {
        let c = v[i];
        assert(t[i - start] == c);
        if !('0' <= c && c <= '9') {
            assert(!is_digit(t[i - start]));
            return None;
        }
        let d = value_of_digit(c);
        let next: u128 = acc * 10 + d;
        let ghost k = (i - start) as int;
        assert(t.take(k + 1).drop_last() =~= t.take(k));
        assert(t.take(k + 1).last() == c);
        assert(all_digits(t.take(k + 1))) by {
            assert forall|j: int| 0 <= j < t.take(k + 1).len() implies is_digit(
                #[trigger] t.take(k + 1)[j],
            ) by {
                if j < k {
                    assert(t.take(k + 1)[j] == t.take(k)[j]);
                }
            }
        }
        if next > PARSE_CAP {
            proof {
                if all_digits(t) {
                    lemma_digits_value_prefix(t, k + 1);
                }
            }
            return None;
        }
        acc = next;
        i = i + 1;
    }
    assert(t.take(n - start) =~= t);
    Some(acc)
}

/// Reads `v` as `str::parse` reads an integer, before the range check of the
/// target type; magnitudes beyond `PARSE_CAP` are reported as `None`.
pub fn read_int(v: &Vec<char>, signed: bool) -> (r: Option<i128>)
    ensures
        match r {
            Some(x) => parse_int(v@, signed) == Some(x as int),
            None => parse_int(v@, signed) matches Some(x) ==> (x > PARSE_CAP || x < -PARSE_CAP),
        },
{
    let n = v.len();
    if n == 0 {
        return None;
    }
    if (v[0] == '+' || v[0] == '-') && n == 1 {
        return None;
    }
    if v[0] == '-' && signed {
        assert(v@.subrange(1, n as int) =~= v@.drop_first());
        match read_digits(v, 1) {
            Some(x) => Some(0 - (x as i128)),
            None => None,
        }
    } else if v[0] == '+' {
        assert(v@.subrange(1, n as int) =~= v@.drop_first());
        match read_digits(v, 1) {
            Some(x) => Some(x as i128),
            None => None,
        }
    } else {
        assert(v@.subrange(0, n as int) =~= v@);
        match read_digits(v, 0) {
            Some(x) => Some(x as i128),
            None => None,
        }
    }
}

/// What `s.parse::<i64>()` gives for the characters `v`.
pub fn parse_i64_chars(v: &Vec<char>) -> (r: Option<i64>)
    ensures
        match r {
            Some(x) => parse_i64(v@) == Some(x as int),
            None => parse_i64(v@) is None,
        },
{
    match read_int(v, true) {
        Some(x) => {
            if i64::MIN as i128 <= x && x <= i64::MAX as i128 {
                Some(x as i64)
            } else {
                None
            }
        },
        None => None,
    }
}

/// What `s.parse::<i32>()` gives for the characters `v`.
pub fn parse_i32_chars(v: &Vec<char>) -> (r: Option<i32>)
    ensures
        match r {
            Some(x) => parse_i32(v@) == Some(x as int),
            None => parse_i32(v@) is None,
        },
{
    match read_int(v, true) {
        Some(x) => {
            if i32::MIN as i128 <= x && x <= i32::MAX as i128 {
                Some(x as i32)
            } else {
                None
            }
        },
        None => None,
    }
}

/// What `s.parse::<u64>()` gives for the characters `v`.
pub fn parse_u64_chars(v: &Vec<char>) -> (r: Option<u64>)
    ensures
        match r {
            Some(x) => parse_u64(v@) == Some(x as int),
            None => parse_u64(v@) is None,
        },
{
    match read_int(v, false) {
        Some(x) => {
            if 0 <= x && x <= u64::MAX as i128 {
                Some(x as u64)
            } else {
                None
            }
        },
        None => None,
    }
}


/// `split_pair` always yields at least one piece.
pub proof fn lemma_split_pair_len(s: Seq<char>, a: char, b: char)
    ensures
        split_pair(s, a, b).len() >= 1,
    decreases s.len(),
{
    if s.len() >= 2 && s[s.len() - 2] == a && s.last() == b {
        lemma_split_pair_len(s.take(s.len() - 2), a, b);
    } else if s.len() > 0 {
        lemma_split_pair_len(s.drop_last(), a, b);
    }
}

/// The pieces of `v` between occurrences of the separator `[a, b]`.
pub fn split_pair_chars(v: &Vec<char>, a: char, b: char) -> (r: Vec<Vec<char>>)
    requires
        a != b,
    ensures
        pieces(r@) == split_pair(v@, a, b),
{
    let n = v.len();
    let mut done: Vec<Vec<char>> = Vec::new();
    let mut cur: Vec<char> = Vec::new();
    let mut i: usize = 0;
    assert(v@.take(0) =~= Seq::<char>::empty());
    assert(pieces(done@).push(cur@) =~= split_pair(v@.take(0), a, b));
    while i < n
        invariant
            a != b,
            n == v@.len(),
            i <= n,
            pieces(done@).push(cur@) == split_pair(v@.take(i as int), a, b),
            0 < i < n ==> !(v@[i - 1] == a && v@[i as int] == b),
        decreases n - i,
    {
        let ghost prev = split_pair(v@.take(i as int), a, b);
        let ghost before = pieces(done@);
        if i + 1 < n && v[i] == a && v[i + 1] == b {
            let finished = cur;
            done.push(finished);
            cur = Vec::new();
            proof {
                let t = v@.take(i + 2);
                assert(t.take(t.len() - 2) =~= v@.take(i as int));
                assert(t[t.len() - 2] == a && t.last() == b);
            }
            assert(pieces(done@) =~= before.push(finished@));
            assert(pieces(done@).push(cur@) =~= prev.push(Seq::empty()));
            i = i + 2;
        } else {
            let c = v[i];
            cur.push(c);
            proof {
                lemma_split_pair_len(v@.take(i as int), a, b);
                let t = v@.take(i + 1);
                assert(t.drop_last() =~= v@.take(i as int));
                if t.len() >= 2 {
                    assert(t[t.len() - 2] == v@[i - 1]);
                }
            }
            assert(pieces(done@).push(cur@) =~= prev.update(
                prev.len() - 1,
                prev.last().push(c),
            ));
            i = i + 1;
        }
    }
    assert(v@.take(n as int) =~= v@);
    let ghost before = pieces(done@);
    let ghost last = cur@;
    done.push(cur);
    assert(pieces(done@) =~= before.push(last));
    done
}

/// The characters of `v` without leading and trailing `c`.
pub fn trim_char_chars(v: &Vec<char>, c: char) -> (r: Vec<char>)
    ensures
        r@ == trim_char(v@, c),
{
    let n = v.len();
    let mut i: usize = 0;
    assert(v@.subrange(0, n as int) =~= v@);
    while i < n && v[i] == c
        invariant
            n == v@.len(),
            i <= n,
            trim_char(v@, c) == trim_char(v@.subrange(i as int, n as int), c),
        decreases n - i,
    {
        proof {
            let t = v@.subrange(i as int, n as int);
            assert(t.drop_first() =~= v@.subrange(i + 1, n as int));
        }
        i = i + 1;
    }
    let mut j: usize = n;
    while j > i && v[j - 1] == c
        invariant
            n == v@.len(),
            i <= j <= n,
            i < n ==> v@[i as int] != c,
            trim_char(v@, c) == trim_char(v@.subrange(i as int, j as int), c),
        decreases j,
    {
        proof {
            let t = v@.subrange(i as int, j as int);
            assert(t.drop_last() =~= v@.subrange(i as int, j - 1));
            assert(t[0] == v@[i as int]);
        }
        j = j - 1;
    }
    proof {
        let t = v@.subrange(i as int, j as int);
        if t.len() > 0 {
            assert(t[0] == v@[i as int]);
            assert(t.last() == v@[j - 1]);
        }
    }
    sub_vec(v, i, j)
}

/// Whether `x` is among `list`.
pub fn member(list: &Vec<Vec<char>>, x: &Vec<char>) -> (b: bool)
    ensures
        b == pieces(list@).contains(x@),
{
    let n = list.len();
    let mut i: usize = 0;
    while i < n
        invariant
            n == list@.len(),
            i <= n,
            forall|j: int| 0 <= j < i ==> list@[j]@ != x@,
        decreases n - i,
    {
        if chars_eq(&list[i], x) {
            assert(pieces(list@)[i as int] == x@);
            return true;
        }
        i = i + 1;
    }
    assert forall|j: int| 0 <= j < pieces(list@).len() implies pieces(list@)[j] != x@ by {
        assert(pieces(list@)[j] == list@[j]@);
    }
    false
}

/// Each member of `ps` with `trim` applied.
pub fn trim_each(ps: &Vec<Vec<char>>) -> (r: Vec<Vec<char>>)
    ensures
        pieces(r@) == pieces(ps@).map_values(|p: Seq<char>| trim(p)),
{
    let n = ps.len();
    let mut r: Vec<Vec<char>> = Vec::new();
    let mut i: usize = 0;
    while i < n
        invariant
            n == ps@.len(),
            i <= n,
            pieces(r@) == pieces(ps@).take(i as int).map_values(|p: Seq<char>| trim(p)),
        decreases n - i,
    {
        let t = trim_chars(&ps[i]);
        let ghost before = pieces(r@);
        r.push(t);
        assert(pieces(r@) =~= before.push(trim(ps@[i as int]@)));
        i = i + 1;
        assert(pieces(r@) =~= pieces(ps@).take(i as int).map_values(|p: Seq<char>| trim(p)));
    }
    assert(pieces(ps@).take(n as int) =~= pieces(ps@));
    r
}


/// Splitting at a separator between `x` and `y` splits each side on its own.
pub proof fn lemma_split_char_concat(x: Seq<char>, c: char, y: Seq<char>)
    ensures
        split_char(x + seq![c] + y, c) == split_char(x, c) + split_char(y, c),
    decreases y.len(),
{
    let s = x + seq![c] + y;
    if y.len() == 0 {
        assert(s =~= x.push(c));
        assert(s.drop_last() =~= x);
        assert(split_char(y, c) =~= seq![Seq::<char>::empty()]);
        assert(split_char(s, c) =~= split_char(x, c) + split_char(y, c));
    } else {
        let y1 = y.drop_last();
        lemma_split_char_concat(x, c, y1);
        lemma_split_char_len(y1, c);
        lemma_split_char_len(x, c);
        assert(s.drop_last() =~= x + seq![c] + y1);
        assert(s.last() == y.last());
        let prev = split_char(x + seq![c] + y1, c);
        let px = split_char(x, c);
        let py = split_char(y1, c);
        if y.last() == c {
            assert(split_char(s, c) =~= split_char(x, c) + split_char(y, c));
        } else {
            assert(prev == px + py);
            assert(prev.last() == py.last());
            assert(split_char(s, c) =~= split_char(x, c) + split_char(y, c));
        }
    }
}

/// A text without the separator is a single piece.
pub proof fn lemma_split_char_single(x: Seq<char>, c: char)
    requires
        !x.contains(c),
    ensures
        split_char(x, c) == seq![x],
    decreases x.len(),
{
    if x.len() > 0 {
        let x1 = x.drop_last();
        assert(!x1.contains(c)) by {
            if x1.contains(c) {
                let k = choose|k: int| 0 <= k < x1.len() && x1[k] == c;
                assert(x[k] == c);
            }
        }
        lemma_split_char_single(x1, c);
        assert(x[x.len() - 1] == x.last());
        assert(x.last() != c);
        assert(split_char(x, c) =~= seq![x1.push(x.last())]);
        assert(x1.push(x.last()) =~= x);
    } else {
        assert(x =~= Seq::<char>::empty());
    }
}

/// The pieces of `split_char(s, c)` only hold characters of `s`.
pub proof fn lemma_split_char_piece_chars(s: Seq<char>, c: char, d: char, k: int)
    requires
        !s.contains(d),
        0 <= k < split_char(s, c).len(),
    ensures
        !split_char(s, c)[k].contains(d),
    decreases s.len(),
{
    if s.len() > 0 {
        let s1 = s.drop_last();
        assert(!s1.contains(d)) by {
            if s1.contains(d) {
                let j = choose|j: int| 0 <= j < s1.len() && s1[j] == d;
                assert(s[j] == d);
            }
        }
        lemma_split_char_len(s1, c);
        let prev = split_char(s1, c);
        assert(s[s.len() - 1] == s.last());
        if s.last() == c {
            if k < prev.len() {
                lemma_split_char_piece_chars(s1, c, d, k);
            }
        } else {
            lemma_split_char_piece_chars(s1, c, d, k);
            if k == prev.len() - 1 {
                let q = prev.last().push(s.last());
                assert forall|i: int| 0 <= i < q.len() implies q[i] != d by {
                    if i < prev.last().len() {
                        assert(q[i] == prev.last()[i]);
                    }
                }
            }
        }
    }
}

/// No piece of `split_char(s, sep)` holds `sep`.
pub proof fn lemma_split_char_no_sep(s: Seq<char>, sep: char, k: int)
    requires
        0 <= k < split_char(s, sep).len(),
    ensures
        !split_char(s, sep)[k].contains(sep),
    decreases s.len(),
{
    if s.len() > 0 {
        let prev = split_char(s.drop_last(), sep);
        lemma_split_char_len(s.drop_last(), sep);
        if s.last() == sep {
            if k < prev.len() {
                lemma_split_char_no_sep(s.drop_last(), sep, k);
            }
        } else {
            lemma_split_char_no_sep(s.drop_last(), sep, k);
            if k == prev.len() - 1 {
                let q = prev.last().push(s.last());
                assert forall|i: int| 0 <= i < q.len() implies q[i] != sep by {
                    if i < prev.last().len() {
                        assert(q[i] == prev.last()[i]);
                    }
                }
            }
        }
    }
}

/// The text of a template: `lits[0]`, then each argument followed by the next
/// literal fragment.
pub open spec fn fill(lits: Seq<Seq<char>>, args: Seq<Seq<char>>) -> Seq<char>
    decreases args.len(),
{
    if args.len() == 0 || lits.len() == 0 {
        if lits.len() == 0 {
            Seq::empty()
        } else {
            lits[0]
        }
    } else {
        fill(lits.drop_last(), args.drop_last()) + args.last() + lits.last()
    }
}

/// A template filled with fewer arguments than it has fragments begins with
/// its first fragment.
pub proof fn lemma_fill_starts_with_first(lits: Seq<Seq<char>>, args: Seq<Seq<char>>)
    requires
        lits.len() > args.len(),
        lits[0].len() > 0,
    ensures
        fill(lits, args).len() > 0,
        fill(lits, args)[0] == lits[0][0],
    decreases args.len(),
{
    if args.len() > 0 {
        let l1 = lits.drop_last();
        let a1 = args.drop_last();
        assert(l1[0] == lits[0]);
        lemma_fill_starts_with_first(l1, a1);
        let f1 = fill(l1, a1);
        assert(fill(lits, args) == f1 + args.last() + lits.last());
        assert((f1 + args.last() + lits.last())[0] == f1[0]);
    }
}

/// The views of string literals.
pub open spec fn str_views(v: Seq<&str>) -> Seq<Seq<char>> {
    v.map_values(|s: &str| s@)
}

/// Fills the template `lits` with `args`.
pub fn fill_template(lits: &Vec<&str>, args: &Vec<String>) -> (r: String)
    requires
        lits@.len() == args@.len() + 1,
    ensures
        r@ == fill(str_views(lits@), views(args@)),
{
    let n = args.len();
    let ghost ls = str_views(lits@);
    let ghost xs = views(args@);
    let mut r = String::from_str(lits[0]);
    let mut i: usize = 0;
    assert(fill(ls.take(1), xs.take(0)) == ls[0]);
    while i < n
        invariant
            n == args@.len(),
            lits@.len() == n + 1,
            ls == str_views(lits@),
            xs == views(args@),
            i <= n,
            r@ == fill(ls.take(i + 1), xs.take(i as int)),
        decreases n - i,
    {
        r.append(args[i].as_str());
        r.append(lits[i + 1]);
        proof {
            assert(ls.take(i + 2).drop_last() =~= ls.take(i + 1));
            assert(xs.take(i + 1).drop_last() =~= xs.take(i as int));
        }
        i = i + 1;
    }
    assert(ls.take(n + 1) =~= ls);
    assert(xs.take(n as int) =~= xs);
    r
}



/// Splitting at a two-character separator between `x` and `y` splits each
/// side on its own.
pub proof fn lemma_split_pair_concat(x: Seq<char>, a: char, b: char, y: Seq<char>)
    requires
        a != b,
    ensures
        split_pair(x + seq![a, b] + y, a, b) == split_pair(x, a, b) + split_pair(y, a, b),
    decreases y.len(),
{
    let s = x + seq![a, b] + y;
    lemma_split_pair_len(x, a, b);
    if y.len() == 0 {
        assert(s.take(s.len() - 2) =~= x);
        assert(split_pair(y, a, b) =~= seq![Seq::<char>::empty()]);
        assert(split_pair(s, a, b) =~= split_pair(x, a, b) + split_pair(y, a, b));
    } else if y.len() == 1 {
        assert(s.drop_last() =~= x + seq![a, b]);
        assert(s[s.len() - 2] == b);
        lemma_split_pair_concat(x, a, b, Seq::empty());
        assert(x + seq![a, b] + Seq::<char>::empty() =~= x + seq![a, b]);
        assert(y.drop_last() =~= Seq::<char>::empty());
        assert(split_pair(y, a, b) =~= seq![seq![y[0]]]);
        assert(split_pair(s, a, b) =~= split_pair(x, a, b) + split_pair(y, a, b));
    } else {
        assert(s[s.len() - 2] == y[y.len() - 2]);
        assert(s.last() == y.last());
        if y[y.len() - 2] == a && y.last() == b {
            let y2 = y.take(y.len() - 2);
            assert(s.take(s.len() - 2) =~= x + seq![a, b] + y2);
            lemma_split_pair_concat(x, a, b, y2);
            assert(split_pair(s, a, b) =~= split_pair(x, a, b) + split_pair(y, a, b));
        } else {
            let y1 = y.drop_last();
            assert(s.drop_last() =~= x + seq![a, b] + y1);
            lemma_split_pair_concat(x, a, b, y1);
            lemma_split_pair_len(y1, a, b);
            assert(split_pair(s, a, b) =~= split_pair(x, a, b) + split_pair(y, a, b));
        }
    }
}

/// A text without the separator's first character is a single piece.
pub proof fn lemma_split_pair_single(x: Seq<char>, a: char, b: char)
    requires
        !x.contains(a),
    ensures
        split_pair(x, a, b) == seq![x],
    decreases x.len(),
{
    if x.len() > 0 {
        let x1 = x.drop_last();
        assert(!x1.contains(a)) by {
            if x1.contains(a) {
                let k = choose|k: int| 0 <= k < x1.len() && x1[k] == a;
                assert(x[k] == a);
            }
        }
        if x.len() >= 2 {
            assert(x[x.len() - 2] != a);
        }
        lemma_split_pair_single(x1, a, b);
        assert(x1.push(x.last()) =~= x);
        assert(split_pair(x, a, b) =~= seq![x]);
    } else {
        assert(x =~= Seq::<char>::empty());
    }
}

/// Splitting a join at its separator gives back the joined pieces.
pub proof fn lemma_split_pair_join(ds: Seq<Seq<char>>, a: char, b: char)
    requires
        a != b,
        ds.len() >= 1,
        forall|i: int| 0 <= i < ds.len() ==> !(#[trigger] ds[i]).contains(a),
    ensures
        split_pair(join(ds, seq![a, b]), a, b) == ds,
    decreases ds.len(),
{
    if ds.len() == 1 {
        lemma_split_pair_single(ds[0], a, b);
        assert(seq![ds[0]] =~= ds);
    } else {
        let d1 = ds.drop_last();
        assert forall|i: int| 0 <= i < d1.len() implies !(#[trigger] d1[i]).contains(a) by {
            assert(d1[i] == ds[i]);
        }
        lemma_split_pair_join(d1, a, b);
        lemma_split_pair_concat(join(d1, seq![a, b]), a, b, ds.last());
        assert(ds.last() == ds[ds.len() - 1]);
        lemma_split_pair_single(ds.last(), a, b);
        assert(join(ds, seq![a, b]) == join(d1, seq![a, b]) + seq![a, b] + ds.last());
        assert(d1 + seq![ds.last()] =~= ds);
    }
}

/// Prefixing a join prefixes its first piece.
pub proof fn lemma_join_prepend(ds: Seq<Seq<char>>, sep: Seq<char>, p: Seq<char>)
    requires
        ds.len() >= 1,
    ensures
        p + join(ds, sep) == join(ds.update(0, p + ds[0]), sep),
    decreases ds.len(),
{
    if ds.len() >= 2 {
        let d1 = ds.drop_last();
        lemma_join_prepend(d1, sep, p);
        let u = ds.update(0, p + ds[0]);
        assert(u.drop_last() =~= d1.update(0, p + d1[0]));
        assert(u.last() == ds.last());
        assert(p + join(ds, sep) =~= (p + join(d1, sep)) + sep + ds.last());
    }
}

/// Suffixing a join suffixes its last piece.
pub proof fn lemma_join_append(ds: Seq<Seq<char>>, sep: Seq<char>, p: Seq<char>)
    requires
        ds.len() >= 1,
    ensures
        join(ds, sep) + p == join(ds.update(ds.len() - 1, ds.last() + p), sep),
{
    let u = ds.update(ds.len() - 1, ds.last() + p);
    if ds.len() >= 2 {
        assert(u.drop_last() =~= ds.drop_last());
        assert(join(ds, sep) + p =~= join(ds.drop_last(), sep) + sep + (ds.last() + p));
    }
}

/// `trim` leaves a text alone whose ends are not whitespace.
pub proof fn lemma_trim_unchanged(s: Seq<char>)
    requires
        s.len() > 0,
        !is_ws(s[0]),
        !is_ws(s.last()),
    ensures
        trim(s) == s,
{
}

/// `trim_char` takes away one `c` on either side of a text whose ends are not `c`.
pub proof fn lemma_trim_char_quoted(d: Seq<char>, c: char, front: bool, back: bool)
    requires
        d.len() > 0,
        d[0] != c,
        d.last() != c,
    ensures
        trim_char((if front { seq![c] } else { Seq::empty() }) + d + (if back {
            seq![c]
        } else {
            Seq::empty()
        }), c) == d,
{
    let f: Seq<char> = if front {
        seq![c]
    } else {
        Seq::empty()
    };
    let k: Seq<char> = if back {
        seq![c]
    } else {
        Seq::empty()
    };
    let s = f + d + k;
    let t = d + k;
    if front {
        assert(s.drop_first() =~= t);
        assert(s[0] == c);
    } else {
        assert(s =~= t);
    }
    assert(trim_char(s, c) == trim_char(t, c));
    if back {
        assert(t[0] == d[0]);
        assert(t.drop_last() =~= d);
        assert(trim_char(t, c) == trim_char(d, c));
    } else {
        assert(t =~= d);
    }
    assert(trim_char(d, c) == d);
}


/// What `s.parse::<i64>()` gives.
pub fn parse_i64_str(s: &str) -> (r: Option<i64>)
    ensures
        match r {
            Some(x) => parse_i64(s@) == Some(x as int),
            None => parse_i64(s@) is None,
        },
{
    let v = chars_of(s);
    parse_i64_chars(&v)
}

/// `s` without its trailing whitespace (`str::trim_end`).
pub fn trim_end_str(s: &str) -> (r: String)
    ensures
        r@ == trim_end(s@),
{
    let v = chars_of(s);
    let n = v.len();
    let mut j: usize = n;
    assert(v@.subrange(0, n as int) =~= v@);
    while j > 0 && char_is_ws(v[j - 1])
        invariant
            n == v@.len(),
            j <= n,
            trim_end(v@) == trim_end(v@.subrange(0, j as int)),
        decreases j,
    {
        proof {
            lemma_trim_end_step(v@, j as int);
            assert(v@.subrange(0, j as int).drop_last() =~= v@.subrange(0, j - 1));
        }
        j = j - 1;
    }
    let r = sub_vec(&v, 0, j);
    string_of(r.as_slice())
}

} // verus!
