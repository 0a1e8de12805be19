//! Character-level text model: the splitting and trimming operations that the
//! parsers of this crate build on, with their specifications over `Seq<char>`.
//!
//! Every operation mirrors the behaviour of the `str` method of the same name
//! (`split_whitespace`, `trim`, `lines`, `split`, `find`, ...), stated on the
//! sequence of characters of the text.

use vstd::prelude::*;

verus! {

broadcast use vstd::string::group_string_axioms;

/// `String::push` appends one character.
pub assume_specification[ std::string::String::push ](s: &mut String, ch: char)
    ensures
        final(s)@ == old(s)@.push(ch),
;

// ---------------------------------------------------------------------------
// Specifications
// ---------------------------------------------------------------------------

/// The Unicode `White_Space` property, as `char::is_whitespace` tests it.
pub open spec fn is_ws(c: char) -> bool {
    let n = c as u32;
    ||| 0x09 <= n <= 0x0D
    ||| n == 0x20
    ||| n == 0x85
    ||| n == 0xA0
    ||| n == 0x1680
    ||| 0x2000 <= n <= 0x200A
    ||| n == 0x2028
    ||| n == 0x2029
    ||| n == 0x202F
    ||| n == 0x205F
    ||| n == 0x3000
}

/// The views of a sequence of character vectors.
pub open spec fn views(v: Seq<Vec<char>>) -> Seq<Seq<char>> {
    v.map_values(|t: Vec<char>| t@)
}

/// Number of leading characters of `s` that satisfy `p`.
pub open spec fn prefix_len(s: Seq<char>, p: spec_fn(char) -> bool) -> nat
    decreases s.len(),
{
    if s.len() > 0 && p(s[0]) {
        1 + prefix_len(s.drop_first(), p)
    } else {
        0
    }
}

/// Number of trailing characters of `s` that satisfy `p`.
pub open spec fn suffix_len(s: Seq<char>, p: spec_fn(char) -> bool) -> nat
    decreases s.len(),
{
    if s.len() > 0 && p(s.last()) {
        1 + suffix_len(s.drop_last(), p)
    } else {
        0
    }
}

/// `s` without its leading and trailing characters that satisfy `p`.
pub open spec fn trim_by(s: Seq<char>, p: spec_fn(char) -> bool) -> Seq<char> {
    let t = s.skip(prefix_len(s, p) as int);
    t.take(t.len() - suffix_len(t, p))
}

/// A class of characters that trimming removes.
pub enum CharClass {
    Whitespace,
    Exactly(char),
}

impl CharClass {
    /// The characters of the class.
    pub open spec fn pred(self) -> spec_fn(char) -> bool {
        match self {
            CharClass::Whitespace => |c: char| is_ws(c),
            CharClass::Exactly(x) => |c: char| c == x,
        }
    }

    /// Whether `c` belongs to the class.
    pub fn test(&self, c: char) -> (r: bool)
        ensures
            r == self.pred()(c),
    {
        match self {
            CharClass::Whitespace => is_whitespace(c),
            CharClass::Exactly(x) => c == *x,
        }
    }
}

/// `str::trim`.
pub open spec fn trim(s: Seq<char>) -> Seq<char> {
    trim_by(s, CharClass::Whitespace.pred())
}

/// `str::trim_matches` with a single character.
pub open spec fn trim_char(s: Seq<char>, c: char) -> Seq<char> {
    trim_by(s, CharClass::Exactly(c).pred())
}

/// `str::trim_end_matches` with a single character.
pub open spec fn trim_end_char(s: Seq<char>, c: char) -> Seq<char> {
    s.take(s.len() - suffix_len(s, CharClass::Exactly(c).pred()))
}

/// `str::trim_start_matches` with a single character.
pub open spec fn trim_start_char(s: Seq<char>, c: char) -> Seq<char> {
    s.skip(prefix_len(s, CharClass::Exactly(c).pred()) as int)
}

/// `[T]::join` on texts: the pieces with `sep` between each two of them.
pub open spec fn join(v: Seq<Seq<char>>, sep: Seq<char>) -> Seq<char>
    decreases v.len(),
{
    if v.len() == 0 {
        seq![]
    } else if v.len() == 1 {
        v[0]
    } else {
        join(v.drop_last(), sep) + sep + v.last()
    }
}

/// Words of `s` separated by whitespace; `cur` is the word read so far.
pub open spec fn split_ws_from(s: Seq<char>, cur: Seq<char>) -> Seq<Seq<char>>
    decreases s.len(),
{
    if s.len() == 0 {
        if cur.len() > 0 { seq![cur] } else { seq![] }
    } else if is_ws(s[0]) {
        (if cur.len() > 0 { seq![cur] } else { seq![] }) + split_ws_from(s.drop_first(), seq![])
    } else {
        split_ws_from(s.drop_first(), cur.push(s[0]))
    }
}

/// `str::split_whitespace`.
pub open spec fn split_ws(s: Seq<char>) -> Seq<Seq<char>> {
    split_ws_from(s, seq![])
}

/// Pieces of `s` between occurrences of `c`; `cur` is the piece read so far.
pub open spec fn split_from(s: Seq<char>, c: char, cur: Seq<char>) -> Seq<Seq<char>>
    decreases s.len(),
{
    if s.len() == 0 {
        seq![cur]
    } else if s[0] == c {
        seq![cur] + split_from(s.drop_first(), c, seq![])
    } else {
        split_from(s.drop_first(), c, cur.push(s[0]))
    }
}

/// `str::split` with a single character: never empty.
pub open spec fn split(s: Seq<char>, c: char) -> Seq<Seq<char>> {
    split_from(s, c, seq![])
}

/// A line without its final carriage return.
pub open spec fn strip_cr(l: Seq<char>) -> Seq<char> {
    if l.len() > 0 && l.last() == '\r' { l.drop_last() } else { l }
}

/// Lines of `s`; `cur` is the line read so far.
pub open spec fn lines_from(s: Seq<char>, cur: Seq<char>) -> Seq<Seq<char>>
    decreases s.len(),
{
    if s.len() == 0 {
        if cur.len() > 0 { seq![cur] } else { seq![] }
    } else if s[0] == '\n' {
        seq![strip_cr(cur)] + lines_from(s.drop_first(), seq![])
    } else {
        lines_from(s.drop_first(), cur.push(s[0]))
    }
}

/// `str::lines`: split at `\n`, a `\r` before it dropped, no empty final line.
pub open spec fn lines(s: Seq<char>) -> Seq<Seq<char>> {
    lines_from(s, seq![])
}

/// Whether `p` occurs in `s` at position `i`.
pub open spec fn matches_at(s: Seq<char>, p: Seq<char>, i: int) -> bool {
    0 <= i && i + p.len() <= s.len() && s.subrange(i, i + p.len()) == p
}

/// First position at or after `i` where `p` occurs in `s`.
pub open spec fn find_from(s: Seq<char>, p: Seq<char>, i: int) -> Option<int>
    decreases s.len() + 1 - i,
{
    if i < 0 || i + p.len() > s.len() {
        None
    } else if s.subrange(i, i + p.len()) == p {
        Some(i)
    } else {
        find_from(s, p, i + 1)
    }
}

/// `str::find` with a string pattern, as a character position.
pub open spec fn find(s: Seq<char>, p: Seq<char>) -> Option<int> {
    find_from(s, p, 0)
}

/// `str::contains`.
pub open spec fn contains(s: Seq<char>, p: Seq<char>) -> bool {
    find(s, p) is Some
}

/// `str::find` with a single character.
pub open spec fn find_char(s: Seq<char>, c: char) -> Option<int> {
    find(s, seq![c])
}

/// `str::starts_with`.
pub open spec fn starts_with(s: Seq<char>, p: Seq<char>) -> bool {
    p.len() <= s.len() && s.take(p.len() as int) == p
}

/// `str::ends_with`.
pub open spec fn ends_with(s: Seq<char>, p: Seq<char>) -> bool {
    p.len() <= s.len() && s.skip(s.len() - p.len()) == p
}

/// `str::split_once` with a single character.
pub open spec fn split_once(s: Seq<char>, c: char) -> Option<(Seq<char>, Seq<char>)> {
    match find_char(s, c) {
        Some(i) => Some((s.take(i), s.skip(i + 1))),
        None => None,
    }
}

/// `str::splitn(2, c)`: the text before the first `c` and the rest, or the
/// whole text when `c` does not occur.
pub open spec fn splitn2(s: Seq<char>, c: char) -> Seq<Seq<char>> {
    match split_once(s, c) {
        Some((a, b)) => seq![a, b],
        None => seq![s],
    }
}

/// Whether `c` is an ASCII decimal digit.
pub open spec fn is_digit(c: char) -> bool {
    '0' <= c <= '9'
}

/// Whether every character of `t` is a digit.
pub open spec fn all_digits(t: Seq<char>) -> bool {
    forall|i: int| 0 <= i < t.len() ==> #[trigger] is_digit(t[i])
}

/// The digits of an unsigned number: `s` without a leading `+`.
pub open spec fn unsigned_digits(s: Seq<char>) -> Seq<char> {
    if s.len() > 0 && s[0] == '+' { s.drop_first() } else { s }
}

/// Decimal value of a sequence of digits.
pub open spec fn digits_value(s: Seq<char>) -> nat
    decreases s.len(),
{
    if s.len() == 0 {
        0
    } else {
        digits_value(s.drop_last()) * 10 + ((s.last() as u32) - ('0' as u32)) as nat
    }
}

/// `str::parse` for an unsigned integer type whose largest value is `max`:
/// an optional `+`, then one or more ASCII digits, within range.
pub open spec fn parse_uint(s: Seq<char>, max: nat) -> Option<nat> {
    let t = unsigned_digits(s);
    if t.len() > 0 && all_digits(t) && digits_value(t) <= max {
        Some(digits_value(t))
    } else {
        None
    }
}

/// `str::parse` for a signed integer type with range `min..=max`: an
/// optional sign, then one or more ASCII digits, within range.
pub open spec fn parse_int(s: Seq<char>, min: int, max: int) -> Option<int> {
    if s.len() > 0 && s[0] == '-' {
        let t = s.drop_first();
        if t.len() > 0 && all_digits(t) && digits_value(t) <= -min {
            Some(-(digits_value(t) as int))
        } else {
            None
        }
    } else {
        match parse_uint(s, max as nat) {
            Some(n) => Some(n as int),
            None => None,
        }
    }
}

/// Decimal text of a signed number, as `i64::to_string` writes it.
pub open spec fn signed_decimal(x: int) -> Seq<char> {
    if x < 0 {
        seq!['-'] + decimal((-x) as nat)
    } else {
        decimal(x as nat)
    }
}

/// Decimal digits of `n`, as `u64::to_string` writes them.
pub open spec fn decimal(n: nat) -> Seq<char>
    decreases n,
{
    if n < 10 {
        seq![('0' as u32 + n) as char]
    } else {
        decimal(n / 10).push(('0' as u32 + (n % 10)) as char)
    }
}

// ---------------------------------------------------------------------------
// Executable operations
// ---------------------------------------------------------------------------

/// `char::is_whitespace`.
pub fn is_whitespace(c: char) -> (r: bool)
    ensures
        r == is_ws(c),
{
    let n = c as u32;
    (0x09 <= n && n <= 0x0D) || n == 0x20 || n == 0x85 || n == 0xA0 || n == 0x1680 || (0x2000
        <= n && n <= 0x200A) || n == 0x2028 || n == 0x2029 || n == 0x202F || n == 0x205F || n
        == 0x3000
}

/// The characters of `s`, in order.
pub fn chars_of(s: &str) -> (v: Vec<char>)
    ensures
        v@ == s@,
{
    let mut v: Vec<char> = Vec::new();
    for c in it: s.chars()
        invariant
            v@ == it.seq().take(it.index() as int),
    {
        v.push(c);
    }
    v
}

/// A `String` holding `v[a..b]`.
pub fn string_of_range(v: &Vec<char>, a: usize, b: usize) -> (s: String)
    requires
        a <= b <= v@.len(),
    ensures
        s@ == v@.subrange(a as int, b as int),
{
    let mut s = String::new();
    let mut i = a;
    while i < b
        invariant
            a <= i <= b <= v@.len(),
            s@ == v@.subrange(a as int, i as int),
        decreases b - i,
    {
        s.push(v[i]);
        i = i + 1;
        assert(s@ =~= v@.subrange(a as int, i as int));
    }
    s
}

/// A `String` holding the characters of `v`.
pub fn string_of(v: &Vec<char>) -> (s: String)
    ensures
        s@ == v@,
{
    let s = string_of_range(v, 0, v.len());
    assert(v@.subrange(0, v@.len() as int) =~= v@);
    s
}

/// The characters `v[a..b]`.
pub fn slice_of(v: &Vec<char>, a: usize, b: usize) -> (r: Vec<char>)
    requires
        a <= b <= v@.len(),
    ensures
        r@ == v@.subrange(a as int, b as int),
{
    let mut r: Vec<char> = Vec::new();
    let mut i = a;
    while i < b
        invariant
            a <= i <= b <= v@.len(),
            r@ == v@.subrange(a as int, i as int),
        decreases b - i,
    {
        r.push(v[i]);
        i = i + 1;
        assert(r@ =~= v@.subrange(a as int, i as int));
    }
    r
}

/// A copy of `v`.
pub fn copy_chars(v: &Vec<char>) -> (r: Vec<char>)
    ensures
        r@ == v@,
{
    let r = slice_of(v, 0, v.len());
    assert(v@.subrange(0, v@.len() as int) =~= v@);
    r
}

/// Number of leading characters of `v[a..b]` in class `k`.
pub fn prefix_count(v: &Vec<char>, a: usize, b: usize, k: &CharClass) -> (n: usize)
    requires
        a <= b <= v@.len(),
    ensures
        n as nat == prefix_len(v@.subrange(a as int, b as int), k.pred()),
        a + n <= b,
{
    let mut i = a;
    while i < b && k.test(v[i])
        invariant
            a <= i <= b <= v@.len(),
            prefix_len(v@.subrange(a as int, b as int), k.pred()) == (i - a) + prefix_len(
                v@.subrange(i as int, b as int),
                k.pred(),
            ),
        decreases b - i,
    {
        assert(v@.subrange(i as int, b as int).drop_first() =~= v@.subrange(i + 1, b as int));
        i = i + 1;
    }
    i - a
}

/// Number of trailing characters of `v[a..b]` in class `k`.
pub fn suffix_count(v: &Vec<char>, a: usize, b: usize, k: &CharClass) -> (n: usize)
    requires
        a <= b <= v@.len(),
    ensures
        n as nat == suffix_len(v@.subrange(a as int, b as int), k.pred()),
        a + n <= b,
{
    let mut j = b;
    while j > a && k.test(v[j - 1])
        invariant
            a <= j <= b <= v@.len(),
            suffix_len(v@.subrange(a as int, b as int), k.pred()) == (b - j) + suffix_len(
                v@.subrange(a as int, j as int),
                k.pred(),
            ),
        decreases j - a,
    {
        assert(v@.subrange(a as int, j as int).drop_last() =~= v@.subrange(a as int, j - 1));
        j = j - 1;
    }
    b - j
}

/// The bounds of `v[a..b]` without its leading and trailing characters of
/// class `k`.
pub fn trim_range(v: &Vec<char>, a: usize, b: usize, k: &CharClass) -> (r: (usize, usize))
    requires
        a <= b <= v@.len(),
    ensures
        a <= r.0 <= r.1 <= b,
        v@.subrange(r.0 as int, r.1 as int) == trim_by(v@.subrange(a as int, b as int), k.pred()),
{
    let n1 = prefix_count(v, a, b, k);
    let n2 = suffix_count(v, a + n1, b, k);
    proof {
        let s = v@.subrange(a as int, b as int);
        assert(s.skip(n1 as int) =~= v@.subrange(a + n1, b as int));
        assert(v@.subrange(a + n1, b as int).take(b - (a + n1) - n2) =~= v@.subrange(
            a + n1,
            b - n2,
        ));
    }
    (a + n1, b - n2)
}

/// `str::trim`.
pub fn trim_chars(v: &Vec<char>) -> (r: Vec<char>)
    ensures
        r@ == trim(v@),
{
    let (x, y) = trim_range(v, 0, v.len(), &CharClass::Whitespace);
    assert(v@.subrange(0, v@.len() as int) =~= v@);
    slice_of(v, x, y)
}

/// `str::trim_matches` with one character.
pub fn trim_matches_chars(v: &Vec<char>, c: char) -> (r: Vec<char>)
    ensures
        r@ == trim_char(v@, c),
{
    let (x, y) = trim_range(v, 0, v.len(), &CharClass::Exactly(c));
    assert(v@.subrange(0, v@.len() as int) =~= v@);
    slice_of(v, x, y)
}

/// `str::trim_end_matches` with one character.
pub fn trim_end_matches_chars(v: &Vec<char>, c: char) -> (r: Vec<char>)
    ensures
        r@ == trim_end_char(v@, c),
{
    let n = suffix_count(v, 0, v.len(), &CharClass::Exactly(c));
    assert(v@.subrange(0, v@.len() as int) =~= v@);
    slice_of(v, 0, v.len() - n)
}

/// `str::trim_start_matches` with one character.
pub fn trim_start_matches_chars(v: &Vec<char>, c: char) -> (r: Vec<char>)
    ensures
        r@ == trim_start_char(v@, c),
{
    let n = prefix_count(v, 0, v.len(), &CharClass::Exactly(c));
    assert(v@.subrange(0, v@.len() as int) =~= v@);
    let r = slice_of(v, n, v.len());
    assert(r@ =~= v@.skip(n as int));
    r
}

/// `[String]::join`.
pub fn join_strings(v: &Vec<String>, sep: &str) -> (r: String)
    ensures
        r@ == join(v@.map_values(|s: String| s@), sep@),
{
    let ghost w = v@.map_values(|s: String| s@);
    let mut out: Vec<char> = Vec::new();
    let sepc = chars_of(sep);
    let mut i: usize = 0;
    while i < v.len()
        invariant
            w == v@.map_values(|s: String| s@),
            sepc@ == sep@,
            i <= v@.len(),
            out@ == join(w.take(i as int), sep@),
        decreases v@.len() - i,
    {
        let ghost before = out@;
        let piece = chars_of(v[i].as_str());
        assert(w.take(i + 1).drop_last() =~= w.take(i as int));
        assert(w.take(i + 1).last() == piece@);
        if i > 0 {
            let mut sp = copy_chars(&sepc);
            out.append(&mut sp);
        }
        let mut pc = copy_chars(&piece);
        out.append(&mut pc);
        proof {
            if i == 0 {
                assert(w.take(1) =~= seq![piece@]);
                assert(out@ =~= piece@);
            } else {
                assert(out@ =~= before + sep@ + piece@);
            }
        }
        i = i + 1;
    }
    assert(w.take(w.len() as int) =~= w);
    string_of(&out)
}

/// `str::split_whitespace`.
pub fn split_whitespace(v: &Vec<char>) -> (r: Vec<Vec<char>>)
    ensures
        views(r@) == split_ws(v@),
{
    let mut r: Vec<Vec<char>> = Vec::new();
    let mut start: usize = 0;
    let mut i: usize = 0;
    let n = v.len();
    assert(v@.skip(0) =~= v@);
    assert(v@.subrange(0, 0) =~= Seq::<char>::empty());
    while i < n
        invariant
            n == v@.len(),
            start <= i <= n,
            views(r@) + split_ws_from(v@.skip(i as int), v@.subrange(start as int, i as int))
                == split_ws(v@),
        decreases n - i,
    {
        let ghost cur = v@.subrange(start as int, i as int);
        let ghost old_r = r@;
        assert(v@.skip(i as int).drop_first() =~= v@.skip(i + 1));
        if is_whitespace(v[i]) {
            if start < i {
                r.push(slice_of(v, start, i));
                assert(views(r@) =~= views(old_r) + seq![cur]);
            } else {
                assert(views(r@) =~= views(old_r) + Seq::<Seq<char>>::empty());
            }
            start = i + 1;
            assert(v@.subrange(start as int, i + 1) =~= Seq::<char>::empty());
        } else {
            assert(cur.push(v@[i as int]) =~= v@.subrange(start as int, i + 1));
        }
        i = i + 1;
    }
    let ghost old_r = r@;
    if start < n {
        r.push(slice_of(v, start, n));
        assert(views(r@) =~= views(old_r) + seq![v@.subrange(start as int, n as int)]);
    } else {
        assert(views(r@) =~= views(old_r) + Seq::<Seq<char>>::empty());
    }
    r
}

/// `str::split` with one character.
pub fn split_char(v: &Vec<char>, c: char) -> (r: Vec<Vec<char>>)
    ensures
        views(r@) == split(v@, c),
        r@.len() >= 1,
{
    let mut r: Vec<Vec<char>> = Vec::new();
    let mut start: usize = 0;
    let mut i: usize = 0;
    let n = v.len();
    assert(v@.skip(0) =~= v@);
    assert(v@.subrange(0, 0) =~= Seq::<char>::empty());
    while i < n
        invariant
            n == v@.len(),
            start <= i <= n,
            views(r@) + split_from(v@.skip(i as int), c, v@.subrange(start as int, i as int))
                == split(v@, c),
        decreases n - i,
    {
        let ghost cur = v@.subrange(start as int, i as int);
        let ghost old_r = r@;
        assert(v@.skip(i as int).drop_first() =~= v@.skip(i + 1));
        if v[i] == c {
            r.push(slice_of(v, start, i));
            assert(views(r@) =~= views(old_r) + seq![cur]);
            start = i + 1;
            assert(v@.subrange(start as int, i + 1) =~= Seq::<char>::empty());
        } else {
            assert(cur.push(v@[i as int]) =~= v@.subrange(start as int, i + 1));
        }
        i = i + 1;
    }
    let ghost old_r = r@;
    r.push(slice_of(v, start, n));
    assert(views(r@) =~= views(old_r) + seq![v@.subrange(start as int, n as int)]);
    r
}

/// `str::lines`.
pub fn lines_of(v: &Vec<char>) -> (r: Vec<Vec<char>>)
    ensures
        views(r@) == lines(v@),
{
    let mut r: Vec<Vec<char>> = Vec::new();
    let mut start: usize = 0;
    let mut i: usize = 0;
    let n = v.len();
    assert(v@.skip(0) =~= v@);
    assert(v@.subrange(0, 0) =~= Seq::<char>::empty());
    while i < n
        invariant
            n == v@.len(),
            start <= i <= n,
            views(r@) + lines_from(v@.skip(i as int), v@.subrange(start as int, i as int))
                == lines(v@),
        decreases n - i,
    {
        let ghost cur = v@.subrange(start as int, i as int);
        let ghost old_r = r@;
        assert(v@.skip(i as int).drop_first() =~= v@.skip(i + 1));
        if v[i] == '\n' {
            let end = if start < i && v[i - 1] == '\r' { i - 1 } else { i };
            assert(v@.subrange(start as int, end as int) =~= strip_cr(cur));
            r.push(slice_of(v, start, end));
            assert(views(r@) =~= views(old_r) + seq![strip_cr(cur)]);
            start = i + 1;
            assert(v@.subrange(start as int, i + 1) =~= Seq::<char>::empty());
        } else {
            assert(cur.push(v@[i as int]) =~= v@.subrange(start as int, i + 1));
        }
        i = i + 1;
    }
    let ghost old_r = r@;
    if start < n {
        r.push(slice_of(v, start, n));
        assert(views(r@) =~= views(old_r) + seq![v@.subrange(start as int, n as int)]);
    } else {
        assert(views(r@) =~= views(old_r) + Seq::<Seq<char>>::empty());
    }
    r
}

/// Whether `v[at..at + p.len()]` equals `p`.
pub fn equal_at(v: &Vec<char>, at: usize, p: &Vec<char>) -> (r: bool)
    requires
        at + p@.len() <= v@.len(),
    ensures
        r == (v@.subrange(at as int, at + p@.len()) == p@),
{
    let mut j: usize = 0;
    while j < p.len()
        invariant
            at + p@.len() <= v.len(),
            j <= p@.len(),
            v@.subrange(at as int, at + j) == p@.take(j as int),
        decreases p@.len() - j,
    {
        assert(at + j < v@.len());
        if v[at + j] != p[j] {
            assert(v@.subrange(at as int, at + p@.len())[j as int] != p@[j as int]);
            return false;
        }
        j = j + 1;
        assert(v@.subrange(at as int, at + j) =~= p@.take(j as int));
    }
    assert(p@.take(p@.len() as int) =~= p@);
    true
}

/// Whether `a` and `b` hold the same characters.
pub fn chars_eq(a: &Vec<char>, b: &Vec<char>) -> (r: bool)
    ensures
        r == (a@ == b@),
{
    if a.len() != b.len() {
        return false;
    }
    let r = equal_at(a, 0, b);
    assert(a@.subrange(0, b@.len() as int) =~= a@);
    r
}

/// Whether the characters of `a` spell `lit`.
pub fn chars_eq_str(a: &Vec<char>, lit: &str) -> (r: bool)
    ensures
        r == (a@ == lit@),
{
    let b = chars_of(lit);
    chars_eq(a, &b)
}

/// `str::starts_with`.
pub fn starts_with_chars(v: &Vec<char>, p: &Vec<char>) -> (r: bool)
    ensures
        r == starts_with(v@, p@),
{
    if p.len() > v.len() {
        return false;
    }
    let r = equal_at(v, 0, p);
    assert(v@.take(p@.len() as int) =~= v@.subrange(0, p@.len() as int));
    r
}

/// `str::starts_with` with a literal.
pub fn starts_with_str(v: &Vec<char>, lit: &str) -> (r: bool)
    ensures
        r == starts_with(v@, lit@),
{
    let p = chars_of(lit);
    starts_with_chars(v, &p)
}

/// `str::ends_with`.
pub fn ends_with_chars(v: &Vec<char>, p: &Vec<char>) -> (r: bool)
    ensures
        r == ends_with(v@, p@),
{
    if p.len() > v.len() {
        return false;
    }
    let r = equal_at(v, v.len() - p.len(), p);
    assert(v@.skip(v@.len() - p@.len()) =~= v@.subrange(
        v@.len() - p@.len(),
        v@.len() - p@.len() + p@.len(),
    ));
    r
}

/// `str::ends_with` with a literal.
pub fn ends_with_str(v: &Vec<char>, lit: &str) -> (r: bool)
    ensures
        r == ends_with(v@, lit@),
{
    let p = chars_of(lit);
    ends_with_chars(v, &p)
}

/// `str::find` with a pattern.
pub fn find_chars(v: &Vec<char>, p: &Vec<char>) -> (r: Option<usize>)
    ensures
        match r {
            Some(i) => find(v@, p@) == Some(i as int),
            None => find(v@, p@) is None,
        },
{
    if p.len() > v.len() {
        return None;
    }
    let last = v.len() - p.len();
    let mut i: usize = 0;
    loop
        invariant
            last == v@.len() - p@.len(),
            i <= last,
            find(v@, p@) == find_from(v@, p@, i as int),
        decreases last - i,
    {
        if equal_at(v, i, p) {
            return Some(i);
        }
        if i == last {
            assert(find_from(v@, p@, i + 1) is None);
            return None;
        }
        i = i + 1;
    }
}

/// `str::find` with a literal pattern.
pub fn find_str(v: &Vec<char>, lit: &str) -> (r: Option<usize>)
    ensures
        match r {
            Some(i) => find(v@, lit@) == Some(i as int),
            None => find(v@, lit@) is None,
        },
{
    let p = chars_of(lit);
    find_chars(v, &p)
}

/// `str::contains` with a literal pattern.
pub fn contains_str(v: &Vec<char>, lit: &str) -> (r: bool)
    ensures
        r == contains(v@, lit@),
{
    find_str(v, lit).is_some()
}

/// `str::find` with one character.
pub fn find_char_pos(v: &Vec<char>, c: char) -> (r: Option<usize>)
    ensures
        match r {
            Some(i) => find_char(v@, c) == Some(i as int),
            None => find_char(v@, c) is None,
        },
{
    let mut p: Vec<char> = Vec::new();
    p.push(c);
    assert(p@ =~= seq![c]);
    find_chars(v, &p)
}

/// `str::split_once` with one character.
pub fn split_once_char(v: &Vec<char>, c: char) -> (r: Option<(Vec<char>, Vec<char>)>)
    ensures
        match r {
            Some((a, b)) => split_once(v@, c) == Some((a@, b@)),
            None => split_once(v@, c) is None,
        },
{
    match find_char_pos(v, c) {
        Some(i) => {
            proof {
                lemma_find_bounds(v@, seq![c]);
                assert(seq![c].len() == 1);
                assert(i + 1 <= v@.len());
            }
            assert(i + 1 <= v.len());
            let a = slice_of(v, 0, i);
            let b = slice_of(v, i + 1, v.len());
            assert(a@ =~= v@.take(i as int));
            assert(b@ =~= v@.skip(i + 1));
            Some((a, b))
        },
        None => None,
    }
}

/// A found pattern lies inside the text, and it is there.
pub proof fn lemma_find_bounds(s: Seq<char>, p: Seq<char>)
    ensures
        find(s, p) matches Some(i) ==> 0 <= i && i + p.len() <= s.len() && matches_at(s, p, i),
{
    lemma_find_from_bounds(s, p, 0);
}

/// A pattern found from `i` lies at or after `i`, inside the text.
pub proof fn lemma_find_from_bounds(s: Seq<char>, p: Seq<char>, i: int)
    ensures
        find_from(s, p, i) matches Some(j) ==> i <= j && j + p.len() <= s.len() && matches_at(
            s,
            p,
            j,
        ),
    decreases s.len() + 1 - i,
{
    if i < 0 || i + p.len() > s.len() {
    } else if s.subrange(i, i + p.len()) == p {
    } else {
        lemma_find_from_bounds(s, p, i + 1);
    }
}

/// A found pattern occurs nowhere before the position found.
pub proof fn lemma_find_first(s: Seq<char>, p: Seq<char>)
    ensures
        find(s, p) matches Some(i) ==> forall|j: int| 0 <= j < i ==> !matches_at(s, p, j),
        find(s, p) is None ==> forall|j: int| !matches_at(s, p, j),
{
    lemma_find_from_first(s, p, 0);
}

/// A pattern found from `i` occurs nowhere between `i` and the position found.
pub proof fn lemma_find_from_first(s: Seq<char>, p: Seq<char>, i: int)
    requires
        0 <= i,
    ensures
        find_from(s, p, i) matches Some(k) ==> forall|j: int| i <= j < k ==> !matches_at(s, p, j),
        find_from(s, p, i) is None ==> forall|j: int| i <= j ==> !matches_at(s, p, j),
    decreases s.len() + 1 - i,
{
    if i + p.len() > s.len() {
    } else if s.subrange(i, i + p.len()) == p {
    } else {
        lemma_find_from_first(s, p, i + 1);
    }
}

/// Splitting at a character that occurs gives at least two pieces.
pub proof fn lemma_split_from_len(s: Seq<char>, c: char, cur: Seq<char>)
    ensures
        split_from(s, c, cur).len() >= 1,
        (exists|i: int| 0 <= i < s.len() && s[i] == c) ==> split_from(s, c, cur).len() >= 2,
    decreases s.len(),
{
    if s.len() > 0 {
        if s[0] == c {
            lemma_split_from_len(s.drop_first(), c, Seq::empty());
        } else {
            lemma_split_from_len(s.drop_first(), c, cur.push(s[0]));
            if exists|i: int| 0 <= i < s.len() && s[i] == c {
                let i = choose|i: int| 0 <= i < s.len() && s[i] == c;
                assert(s.drop_first()[i - 1] == c);
            }
        }
    }
}

/// Splitting a text that contains `c` gives at least two pieces.
pub proof fn lemma_split_contains(s: Seq<char>, c: char)
    requires
        contains(s, seq![c]),
    ensures
        split(s, c).len() >= 2,
{
    lemma_find_bounds(s, seq![c]);
    let i = find(s, seq![c])->0;
    assert(s.subrange(i, i + 1)[0] == c);
    assert(s[i] == c);
    lemma_split_from_len(s, c, Seq::empty());
}

/// `Path::join` on Unix paths: an absolute `name` replaces `base`, otherwise
/// `name` is appended after a `/` unless `base` is empty or ends with one.
pub open spec fn join_path(base: Seq<char>, name: Seq<char>) -> Seq<char> {
    if name.len() > 0 && name[0] == '/' {
        name
    } else if base.len() == 0 || base.last() == '/' {
        base + name
    } else {
        base + seq!['/'] + name
    }
}

/// `Path::join` on Unix paths.
pub fn join_path_string(base: &str, name: &str) -> (r: String)
    ensures
        r@ == join_path(base@, name@),
{
    let b = chars_of(base);
    let n = chars_of(name);
    let mut out: Vec<char>;
    if n.len() > 0 && n[0] == '/' {
        out = n;
    } else {
        out = b;
        if out.len() > 0 && out[out.len() - 1] != '/' {
            out.push('/');
        }
        let ghost o = out@;
        let mut m = n;
        out.append(&mut m);
        assert(out@ =~= o + name@);
    }
    proof {
        if !(name@.len() > 0 && name@[0] == '/') {
            if base@.len() == 0 || base@.last() == '/' {
                assert(out@ =~= base@ + name@);
            } else {
                assert(out@ =~= base@ + seq!['/'] + name@);
            }
        }
    }
    string_of(&out)
}

/// `str::parse` into an unsigned integer type whose largest value is `max`.
pub fn parse_unsigned(v: &Vec<char>, max: u64) -> (r: Option<u64>)
    ensures
        match r {
            Some(x) => parse_uint(v@, max as nat) == Some(x as nat),
            None => parse_uint(v@, max as nat) is None,
        },
{
    let start: usize = if v.len() > 0 && v[0] == '+' { 1 } else { 0 };
    let ghost t = unsigned_digits(v@);
    assert(t =~= v@.skip(start as int));
    if start >= v.len() {
        return None;
    }
    let mut i = start;
    let mut acc: u64 = 0;
    while i < v.len()
        invariant
            start <= i <= v@.len(),
            t == v@.skip(start as int),
            t == unsigned_digits(v@),
            forall|j: int| 0 <= j < i - start ==> #[trigger] is_digit(t[j]),
            acc as nat == digits_value(t.take(i - start)),
            acc <= max,
        decreases v@.len() - i,
    {
        let c = v[i];
        assert(t[i - start] == c);
        if !('0' <= c && c <= '9') {
            assert(!is_digit(t[i - start]));
            assert(!all_digits(t));
            return None;
        }
        let d = (c as u32 - '0' as u32) as u64;
        assert(t.take(i + 1 - start).drop_last() =~= t.take(i - start));
        if d > max || acc > (max - d) / 10 {
            proof {
                assert(digits_value(t.take(i + 1 - start)) == acc * 10 + d);
                if d <= max {
                    assert(acc * 10 + d > max) by (nonlinear_arith)
                        requires
                            acc > (max - d) / 10,
                            d <= max,
                    {
                    }
                }
                lemma_digits_value_prefix(t, i + 1 - start);
                assert(digits_value(t) > max);
            }
            return None;
        }
        acc = acc * 10 + d;
        i = i + 1;
    }
    assert(t.take(t.len() as int) =~= t);
    Some(acc)
}

/// `str::parse` into a signed integer type with range `min..=max`.
pub fn parse_signed(v: &Vec<char>, min: i64, max: i64) -> (r: Option<i64>)
    requires
        min <= 0 <= max,
    ensures
        match r {
            Some(x) => parse_int(v@, min as int, max as int) == Some(x as int),
            None => parse_int(v@, min as int, max as int) is None,
        },
{
    if v.len() > 0 && v[0] == '-' {
        let rest = slice_of(v, 1, v.len());
        assert(rest@ =~= v@.drop_first());
        if rest.len() == 0 || rest[0] == '+' {
            assert(rest@.len() == 0 || !is_digit(rest@[0]));
            return None;
        }
        let bound: u64 = if min == -9223372036854775808i64 {
            9223372036854775808u64
        } else {
            (-min) as u64
        };
        assert(bound == -min);
        assert(unsigned_digits(rest@) == rest@);
        match parse_unsigned(&rest, bound) {
            Some(n) => {
                let x: i64 = if n == 9223372036854775808u64 {
                    -9223372036854775808i64
                } else {
                    -(n as i64)
                };
                Some(x)
            },
            None => None,
        }
    } else {
        match parse_unsigned(v, max as u64) {
            Some(n) => Some(n as i64),
            None => None,
        }
    }
}

/// Appends the decimal text of `n` to `s`.
pub fn push_signed_decimal(s: &mut String, n: i64)
    ensures
        final(s)@ == old(s)@ + signed_decimal(n as int),
{
    if n < 0 {
        s.push('-');
        let magnitude: u64 = if n == -9223372036854775808i64 {
            9223372036854775808u64
        } else {
            (-n) as u64
        };
        push_decimal(s, magnitude);
        assert(s@ =~= old(s)@ + signed_decimal(n as int));
    } else {
        push_decimal(s, n as u64);
    }
}

/// A prefix of a digit sequence has a value no larger than the whole.
pub proof fn lemma_digits_value_prefix(s: Seq<char>, k: int)
    requires
        0 <= k <= s.len(),
    ensures
        digits_value(s.take(k)) <= digits_value(s),
    decreases s.len() - k,
{
    if k < s.len() {
        lemma_digits_value_prefix(s, k + 1);
        let u = s.take(k + 1);
        assert(u.drop_last() =~= s.take(k));
        assert(u.len() > 0);
        assert(digits_value(u) == digits_value(u.drop_last()) * 10 + ((u.last() as u32) - (
        '0' as u32)) as nat);
    } else {
        assert(s.take(k) =~= s);
    }
}

/// Appends the decimal digits of `n` to `s`.
pub fn push_decimal(s: &mut String, n: u64)
    ensures
        final(s)@ == old(s)@ + decimal(n as nat),
    decreases n,
{
    if n < 10 {
        s.push(char_of_digit(n));
        assert(old(s)@.push(char_of_digit_spec(n as nat)) =~= old(s)@ + decimal(n as nat));
    } else {
        push_decimal(s, n / 10);
        s.push(char_of_digit(n % 10));
        assert(old(s)@ + decimal((n / 10) as nat) + seq![char_of_digit_spec((n % 10) as nat)]
            =~= old(s)@ + decimal(n as nat));
    }
}

/// What `str::to_lowercase` returns for a text: its Unicode lowercase mapping.
pub uninterp spec fn lowercase(s: Seq<char>) -> Seq<char>;

/// What `str::to_uppercase` returns for a text: its Unicode uppercase mapping.
pub uninterp spec fn uppercase(s: Seq<char>) -> Seq<char>;

/// Calls `str::to_lowercase`; the contract names its result and claims
/// nothing more of the Unicode case mapping.
#[verifier::external_body]
pub(crate) fn to_lowercase(s: &str) -> (r: String)
    ensures
        r@ == lowercase(s@),
{
    s.to_lowercase()
}

/// Calls `str::to_uppercase`; the contract names its result and claims
/// nothing more of the Unicode case mapping.
#[verifier::external_body]
pub(crate) fn to_uppercase(s: &str) -> (r: String)
    ensures
        r@ == uppercase(s@),
{
    s.to_uppercase()
}

/// `str::to_lowercase` on characters.
pub fn lowercase_chars(v: &Vec<char>) -> (r: Vec<char>)
    ensures
        r@ == lowercase(v@),
{
    let s = string_of(v);
    let l = to_lowercase(s.as_str());
    chars_of(l.as_str())
}

/// `str::to_uppercase` on characters.
pub fn uppercase_chars(v: &Vec<char>) -> (r: Vec<char>)
    ensures
        r@ == uppercase(v@),
{
    let s = string_of(v);
    let u = to_uppercase(s.as_str());
    chars_of(u.as_str())
}

/// The digit character for `d < 10`.
pub open spec fn char_of_digit_spec(d: nat) -> char {
    ('0' as u32 + d) as char
}

/// The digit character for `d < 10`.
fn char_of_digit(d: u64) -> (c: char)
    requires
        d < 10,
    ensures
        c == char_of_digit_spec(d as nat),
{
    match d {
        0 => '0',
        1 => '1',
        2 => '2',
        3 => '3',
        4 => '4',
        5 => '5',
        6 => '6',
        7 => '7',
        8 => '8',
        _ => '9',
    }
}

} // verus!
