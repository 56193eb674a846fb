//! Character-sequence primitives shared by the protocol parser, the release
//! selection and the service helpers. Every operation is stated over the
//! `Seq<char>` view of its text.
use vstd::prelude::*;

verus! {

broadcast use vstd::string::group_string_axioms;

/// The Unicode `White_Space` set, which `char::is_whitespace` and
/// `str::trim` use.
pub open spec fn is_space(c: char) -> bool {
    let n = c as u32;
    (9 <= n && n <= 13) || n == 32 || n == 0x85 || n == 0xa0 || n == 0x1680 || (0x2000 <= n
        && n <= 0x200a) || n == 0x2028 || n == 0x2029 || n == 0x202f || n == 0x205f || n == 0x3000
}

/// `char::is_whitespace`.
pub fn is_space_exec(c: char) -> (r: bool)
    ensures
        r == is_space(c),
{
    let n = c as u32;
    (9 <= n && n <= 13) || n == 32 || n == 0x85 || n == 0xa0 || n == 0x1680 || (0x2000 <= n
        && n <= 0x200a) || n == 0x2028 || n == 0x2029 || n == 0x202f || n == 0x205f || n == 0x3000
}

/// Drops leading white space.
pub open spec fn trim_start(s: Seq<char>) -> Seq<char>
    decreases s.len(),
{
    if s.len() > 0 && is_space(s[0]) {
        trim_start(s.drop_first())
    } else {
        s
    }
}

/// Drops trailing white space.
pub open spec fn trim_end(s: Seq<char>) -> Seq<char>
    decreases s.len(),
{
    if s.len() > 0 && is_space(s.last()) {
        trim_end(s.drop_last())
    } else {
        s
    }
}

/// `str::trim`: white space removed from both ends.
pub open spec fn trim(s: Seq<char>) -> Seq<char> {
    trim_end(trim_start(s))
}

/// The pieces of `s` between occurrences of `d`, as `str::split` yields them
/// for a one-character pattern (always at least one piece).
pub open spec fn split(s: Seq<char>, d: char) -> Seq<Seq<char>>
    decreases s.len(),
{
    if s.len() == 0 {
        seq![Seq::<char>::empty()]
    } else {
        let rest = split(s.drop_last(), d);
        if s.last() == d {
            rest.push(Seq::<char>::empty())
        } else {
            rest.update(rest.len() - 1, rest.last().push(s.last()))
        }
    }
}

/// `str::split_whitespace`: the maximal runs of non-space characters.
pub open spec fn words(s: Seq<char>) -> Seq<Seq<char>>
    decreases s.len(),
{
    if s.len() == 0 {
        Seq::<Seq<char>>::empty()
    } else {
        let w = words(s.drop_last());
        if is_space(s.last()) {
            w
        } else if s.len() > 1 && !is_space(s[s.len() - 2]) {
            w.update(w.len() - 1, w.last().push(s.last()))
        } else {
            w.push(seq![s.last()])
        }
    }
}

/// A line with one trailing carriage return removed.
pub open spec fn strip_cr(l: Seq<char>) -> Seq<char> {
    if l.len() > 0 && l.last() == '\r' {
        l.drop_last()
    } else {
        l
    }
}

/// `str::lines`: pieces between newlines, a carriage return before each
/// newline removed, and no empty piece after a final newline.
pub open spec fn lines(s: Seq<char>) -> Seq<Seq<char>> {
    if s.len() == 0 {
        Seq::<Seq<char>>::empty()
    } else {
        let p = split(s, '\n');
        let body = p.drop_last().map_values(|l: Seq<char>| strip_cr(l));
        if s.last() == '\n' {
            body
        } else {
            body.push(p.last())
        }
    }
}

/// Index of the first occurrence of `d` at or after `from`, if any.
pub open spec fn find_from(s: Seq<char>, d: char, from: int) -> Option<int>
    decreases s.len() - from,
{
    if from < 0 || from >= s.len() {
        None
    } else if s[from] == d {
        Some(from)
    } else {
        find_from(s, d, from + 1)
    }
}

/// `str::split_once` with a one-character pattern.
pub open spec fn split_once(s: Seq<char>, d: char) -> Option<(Seq<char>, Seq<char>)> {
    match find_from(s, d, 0) {
        Some(i) => Some((s.subrange(0, i), s.subrange(i + 1, s.len() as int))),
        None => None,
    }
}

pub open spec fn starts_with(s: Seq<char>, p: Seq<char>) -> bool {
    p.len() <= s.len() && s.subrange(0, p.len() as int) == p
}

pub open spec fn ends_with(s: Seq<char>, p: Seq<char>) -> bool {
    p.len() <= s.len() && s.subrange(s.len() - p.len(), s.len() as int) == p
}

/// `str::strip_prefix`.
pub open spec fn strip_prefix(s: Seq<char>, p: Seq<char>) -> Option<Seq<char>> {
    if starts_with(s, p) {
        Some(s.subrange(p.len() as int, s.len() as int))
    } else {
        None
    }
}

/// `str::strip_suffix`.
pub open spec fn strip_suffix(s: Seq<char>, p: Seq<char>) -> Option<Seq<char>> {
    if ends_with(s, p) {
        Some(s.subrange(0, s.len() - p.len()))
    } else {
        None
    }
}

/// The character views of a list of character vectors.
pub open spec fn views(v: Seq<Vec<char>>) -> Seq<Seq<char>> {
    v.map_values(|x: Vec<char>| x@)
}

pub open spec fn opt_chars(o: Option<Vec<char>>) -> Option<Seq<char>> {
    match o {
        Some(v) => Some(v@),
        None => None,
    }
}

pub open spec fn opt_pair(o: Option<(Vec<char>, Vec<char>)>) -> Option<(Seq<char>, Seq<char>)> {
    match o {
        Some(p) => Some((p.0@, p.1@)),
        None => None,
    }
}

pub open spec fn opt_int(o: Option<i128>) -> Option<int> {
    match o {
        Some(v) => Some(v as int),
        None => None,
    }
}

/// Number of bytes that UTF-8 uses for `c`.
pub open spec fn utf8_width(c: char) -> nat {
    let n = c as u32;
    if n < 0x80 {
        1
    } else if n < 0x800 {
        2
    } else if n < 0x10000 {
        3
    } else {
        4
    }
}

/// Byte length of the UTF-8 encoding of `s`, which `str::len` reports.
pub open spec fn utf8_len(s: Seq<char>) -> nat
    decreases s.len(),
{
    if s.len() == 0 {
        0
    } else {
        utf8_len(s.drop_last()) + utf8_width(s.last())
    }
}

pub open spec fn is_digit(c: char) -> bool {
    '0' <= c && c <= '9'
}

pub open spec fn all_digits(s: Seq<char>) -> bool {
    forall|i: int| 0 <= i < s.len() ==> is_digit(#[trigger] s[i])
}

/// The value of a string of decimal digits.
pub open spec fn digits_value(s: Seq<char>) -> int
    decreases s.len(),
{
    if s.len() == 0 {
        0
    } else {
        digits_value(s.drop_last()) * 10 + (s.last() as int - '0' as int)
    }
}

/// `FromStr` for an integer type with the inclusive bounds `lo..=hi`: an
/// optional sign (`-` only where `lo < 0`), then at least one digit, and
/// nothing else; `None` for anything else or a value out of range.
pub open spec fn parse_integer(s: Seq<char>, lo: int, hi: int) -> Option<int> {
    if s.len() == 0 {
        None
    } else {
        let negative = s[0] == '-' && lo < 0;
        let d = if s[0] == '+' || negative {
            s.drop_first()
        } else {
            s
        };
        if d.len() == 0 || !all_digits(d) {
            None
        } else {
            let v = if negative {
                -digits_value(d)
            } else {
                digits_value(d)
            };
            if lo <= v && v <= hi {
                Some(v)
            } else {
                None
            }
        }
    }
}

pub open spec fn digit_char(n: nat) -> char {
    (n + '0' as nat) as char
}

/// Decimal text of a natural number, without leading zeros.
pub open spec fn decimal_nat(n: nat) -> Seq<char>
    decreases n,
{
    if n < 10 {
        seq![digit_char(n)]
    } else {
        decimal_nat(n / 10).push(digit_char(n % 10))
    }
}

/// Decimal text of an integer, as `Display` writes it.
pub open spec fn decimal(v: int) -> Seq<char> {
    if v < 0 {
        seq!['-'] + decimal_nat((-v) as nat)
    } else {
        decimal_nat(v as nat)
    }
}

/// The characters of `s`.
pub fn chars_of(s: &str) -> (v: Vec<char>)
    ensures
        v@ == s@,
{
    let mut v: Vec<char> = Vec::new();
    for c in it: s.chars()
        invariant
            v@ == it.seq().take(it.index() as int),
            it.seq() == s@,
    {
        v.push(c);
    }
    v
}

/// `String::push`: the string afterwards is the string before with `c`
/// appended.
#[verifier::external_body]
fn push_char(s: &mut String, c: char)
    ensures
        final(s)@ == old(s)@.push(c),
{
    s.push(c);
}

/// The string made of the characters `v`.
pub fn string_of(v: &[char]) -> (s: String)
    ensures
        s@ == v@,
{
    let mut s = String::new();
    let mut i: usize = 0;
    while i < v.len()
        invariant
            i <= v.len(),
            s@ == v@.take(i as int),
        decreases v.len() - i,
    {
        push_char(&mut s, v[i]);
        i += 1;
        assert(s@ =~= v@.take(i as int));
    }
    assert(v@.take(v.len() as int) =~= v@);
    s
}

/// Whether two character sequences are equal.
pub fn same(a: &[char], b: &[char]) -> (r: bool)
    ensures
        r == (a@ == b@),
{
    if a.len() != b.len() {
        return false;
    }
    let mut i: usize = 0;
    while i < a.len()
        invariant
            i <= a.len(),
            a.len() == b.len(),
            forall|j: int| 0 <= j < i ==> a@[j] == b@[j],
        decreases a.len() - i,
    {
        if a[i] != b[i] {
            return false;
        }
        i += 1;
    }
    assert(a@ =~= b@);
    true
}

/// The characters `s[from..to]`.
pub fn slice(s: &[char], from: usize, to: usize) -> (r: Vec<char>)
    requires
        from <= to <= s.len(),
    ensures
        r@ == s@.subrange(from as int, to as int),
{
    let mut r: Vec<char> = Vec::new();
    let mut i = from;
    while i < to
        invariant
            from <= i <= to <= s.len(),
            r@ == s@.subrange(from as int, i as int),
        decreases to - i,
    {
        r.push(s[i]);
        i += 1;
        assert(r@ =~= s@.subrange(from as int, i as int));
    }
    r
}

/// `str::starts_with` on characters.
pub fn starts_with_exec(s: &[char], p: &[char]) -> (r: bool)
    ensures
        r == starts_with(s@, p@),
{
    if p.len() > s.len() {
        return false;
    }
    let mut i: usize = 0;
    while i < p.len()
        invariant
            i <= p.len() <= s.len(),
            forall|j: int| 0 <= j < i ==> s@[j] == p@[j],
        decreases p.len() - i,
    {
        if s[i] != p[i] {
            assert(s@.subrange(0, p.len() as int)[i as int] != p@[i as int]);
            return false;
        }
        i += 1;
    }
    assert(s@.subrange(0, p.len() as int) =~= p@);
    true
}

/// `str::ends_with` on characters.
pub fn ends_with_exec(s: &[char], p: &[char]) -> (r: bool)
    ensures
        r == ends_with(s@, p@),
{
    if p.len() > s.len() {
        return false;
    }
    let off = s.len() - p.len();
    let mut i: usize = 0;
    while i < p.len()
        invariant
            i <= p.len() <= s.len(),
            off == s.len() - p.len(),
            forall|j: int| 0 <= j < i ==> s@[off + j] == p@[j],
        decreases p.len() - i,
    {
        if s[off + i] != p[i] {
            assert(s@.subrange(off as int, s.len() as int)[i as int] != p@[i as int]);
            return false;
        }
        i += 1;
    }
    assert(s@.subrange(off as int, s.len() as int) =~= p@);
    true
}

/// `str::strip_prefix` on characters.
pub fn strip_prefix_exec(s: &[char], p: &[char]) -> (r: Option<Vec<char>>)
    ensures
        opt_chars(r) == strip_prefix(s@, p@),
{
    if starts_with_exec(s, p) {
        Some(slice(s, p.len(), s.len()))
    } else {
        None
    }
}

/// `str::strip_suffix` on characters.
pub fn strip_suffix_exec(s: &[char], p: &[char]) -> (r: Option<Vec<char>>)
    ensures
        opt_chars(r) == strip_suffix(s@, p@),
{
    if ends_with_exec(s, p) {
        Some(slice(s, 0, s.len() - p.len()))
    } else {
        None
    }
}

/// Whether `c` occurs in `s`.
pub fn contains_char(s: &[char], c: char) -> (r: bool)
    ensures
        r == s@.contains(c),
{
    let mut i: usize = 0;
    while i < s.len()
        invariant
            i <= s.len(),
            forall|j: int| 0 <= j < i ==> s@[j] != c,
        decreases s.len() - i,
    {
        if s[i] == c {
            assert(s@[i as int] == c);
            return true;
        }
        i += 1;
    }
    false
}

proof fn lemma_find_from(s: Seq<char>, d: char, from: int, i: int)
    requires
        0 <= from <= i <= s.len(),
        forall|j: int| from <= j < i ==> s[j] != d,
        i == s.len() || s[i] == d,
    ensures
        find_from(s, d, from) == (if i == s.len() {
            None::<int>
        } else {
            Some(i)
        }),
    decreases i - from,
{
    if from < i {
        lemma_find_from(s, d, from + 1, i);
    }
}

/// `str::split_once` at a character.
pub fn split_once_exec(s: &[char], d: char) -> (r: Option<(Vec<char>, Vec<char>)>)
    ensures
        opt_pair(r) == split_once(s@, d),
{
    let mut i: usize = 0;
    while i < s.len() && s[i] != d
        invariant
            i <= s.len(),
            forall|j: int| 0 <= j < i ==> s@[j] != d,
        decreases s.len() - i,
    {
        i += 1;
    }
    proof {
        lemma_find_from(s@, d, 0, i as int);
    }
    if i == s.len() {
        None
    } else {
        Some((slice(s, 0, i), slice(s, i + 1, s.len())))
    }
}

proof fn lemma_trim_start(s: Seq<char>, a: int)
    requires
        0 <= a <= s.len(),
        forall|i: int| 0 <= i < a ==> is_space(#[trigger] s[i]),
        a == s.len() || !is_space(s[a]),
    ensures
        trim_start(s) == s.subrange(a, s.len() as int),
    decreases a,
{
    if a == 0 {
        assert(s.subrange(0, s.len() as int) =~= s);
    } else {
        assert(is_space(s[0]));
        let t = s.drop_first();
        assert forall|i: int| 0 <= i < a - 1 implies is_space(#[trigger] t[i]) by {
            assert(t[i] == s[i + 1]);
        }
        lemma_trim_start(t, a - 1);
        assert(t.subrange(a - 1, t.len() as int) =~= s.subrange(a, s.len() as int));
    }
}

proof fn lemma_trim_end(s: Seq<char>, b: int)
    requires
        0 <= b <= s.len(),
        forall|i: int| b <= i < s.len() ==> is_space(#[trigger] s[i]),
        b == 0 || !is_space(s[b - 1]),
    ensures
        trim_end(s) == s.subrange(0, b),
    decreases s.len() - b,
{
    if b == s.len() {
        assert(s.subrange(0, b) =~= s);
    } else {
        assert(is_space(s.last()));
        let t = s.drop_last();
        assert forall|i: int| b <= i < t.len() implies is_space(#[trigger] t[i]) by {
            assert(t[i] == s[i]);
        }
        lemma_trim_end(t, b);
        assert(t.subrange(0, b) =~= s.subrange(0, b));
    }
}

/// Whether every character of `s` is white space.
pub open spec fn all_space(s: Seq<char>) -> bool {
    forall|i: int| 0 <= i < s.len() ==> is_space(#[trigger] s[i])
}

/// Leading white space is dropped whatever follows it.
pub proof fn lemma_trim_start_spaces(p: Seq<char>, x: Seq<char>)
    requires
        all_space(p),
    ensures
        trim_start(p + x) == trim_start(x),
    decreases p.len(),
{
    if p.len() == 0 {
        assert(p + x =~= x);
    } else {
        assert((p + x)[0] == p[0]);
        assert((p + x).drop_first() =~= p.drop_first() + x);
        lemma_trim_start_spaces(p.drop_first(), x);
    }
}

/// Trailing white space is dropped whatever precedes it.
pub proof fn lemma_trim_end_spaces(x: Seq<char>, q: Seq<char>)
    requires
        all_space(q),
    ensures
        trim_end(x + q) == trim_end(x),
    decreases q.len(),
{
    if q.len() == 0 {
        assert(x + q =~= x);
    } else {
        assert((x + q).last() == q.last());
        assert((x + q).drop_last() =~= x + q.drop_last());
        lemma_trim_end_spaces(x, q.drop_last());
    }
}

/// Dropping leading white space leaves what follows the first other
/// character untouched.
proof fn lemma_trim_start_append(x: Seq<char>, q: Seq<char>)
    requires
        !all_space(x),
    ensures
        trim_start(x + q) == trim_start(x) + q,
    decreases x.len(),
{
    assert((x + q)[0] == x[0]);
    if is_space(x[0]) {
        assert((x + q).drop_first() =~= x.drop_first() + q);
        assert(!all_space(x.drop_first())) by {
            let i = choose|i: int| 0 <= i < x.len() && !is_space(#[trigger] x[i]);
            assert(x.drop_first()[i - 1] == x[i]);
        }
        lemma_trim_start_append(x.drop_first(), q);
    }
}

/// White space around a text does not change what `str::trim` leaves.
pub proof fn lemma_trim_surrounded(p: Seq<char>, x: Seq<char>, q: Seq<char>)
    requires
        all_space(p),
        all_space(q),
    ensures
        trim(p + x + q) == trim(x),
{
    assert(p + x + q =~= p + (x + q));
    lemma_trim_start_spaces(p, x + q);
    if all_space(x) {
        lemma_trim_start_spaces(x, q);
        lemma_trim_start_spaces(q, Seq::<char>::empty());
        assert(q + Seq::<char>::empty() =~= q);
        lemma_trim_start_spaces(x, Seq::<char>::empty());
        assert(x + Seq::<char>::empty() =~= x);
    } else {
        lemma_trim_start_append(x, q);
        lemma_trim_end_spaces(trim_start(x), q);
    }
}

/// `str::trim` on characters.
pub fn trim_exec(s: &[char]) -> (r: Vec<char>)
    ensures
        r@ == trim(s@),
{
    let mut a: usize = 0;
    while a < s.len() && is_space_exec(s[a])
        invariant
            a <= s.len(),
            forall|i: int| 0 <= i < a ==> is_space(#[trigger] s@[i]),
        decreases s.len() - a,
    {
        a += 1;
    }
    proof {
        lemma_trim_start(s@, a as int);
    }
    let ghost t = s@.subrange(a as int, s.len() as int);
    let mut b: usize = s.len();
    while b > a && is_space_exec(s[b - 1])
        invariant
            a <= b <= s.len(),
            t == s@.subrange(a as int, s.len() as int),
            forall|i: int| b <= i < s.len() ==> is_space(#[trigger] s@[i]),
        decreases b,
    {
        b -= 1;
    }
    proof {
        assert forall|i: int| b - a <= i < t.len() implies is_space(#[trigger] t[i]) by {
            assert(t[i] == s@[a + i]);
        }
        if b > a {
            assert(t[b - a - 1] == s@[b - 1]);
        }
        lemma_trim_end(t, b - a);
        assert(t.subrange(0, b - a) =~= s@.subrange(a as int, b as int));
    }
    slice(s, a, b)
}

/// `str::split` always yields at least one piece.
pub proof fn lemma_split_len(s: Seq<char>, d: char)
    ensures
        split(s, d).len() >= 1,
    decreases s.len(),
{
    if s.len() > 0 {
        lemma_split_len(s.drop_last(), d);
    }
}

/// `str::split` with a one-character pattern.
pub fn split_exec(s: &[char], d: char) -> (r: Vec<Vec<char>>)
    ensures
        views(r@) == split(s@, d),
        r@.len() >= 1,
{
    proof {
        lemma_split_len(s@, d);
    }
    let mut done: Vec<Vec<char>> = Vec::new();
    let mut cur: Vec<char> = Vec::new();
    let mut i: usize = 0;
    assert(s@.take(0) =~= Seq::<char>::empty());
    while i < s.len()
        invariant
            i <= s.len(),
            views(done@).push(cur@) == split(s@.take(i as int), d),
        decreases s.len() - i,
    {
        let ghost before = views(done@).push(cur@);
        assert(s@.take(i + 1).drop_last() =~= s@.take(i as int));
        if s[i] == d {
            let ghost (od, oc) = (done@, cur@);
            done.push(cur);
            assert(views(done@) =~= views(od).push(oc));
            cur = Vec::new();
            assert(views(done@).push(cur@) =~= before.push(Seq::<char>::empty()));
        } else {
            cur.push(s[i]);
            assert(views(done@).push(cur@) =~= before.update(
                before.len() - 1,
                before.last().push(s@[i as int]),
            ));
        }
        i += 1;
    }
    assert(s@.take(s.len() as int) =~= s@);
    let ghost (od, oc) = (done@, cur@);
    done.push(cur);
    assert(views(done@) =~= views(od).push(oc));
    done
}

proof fn lemma_words_nonempty(s: Seq<char>)
    requires
        s.len() > 0,
        !is_space(s.last()),
    ensures
        words(s).len() > 0,
    decreases s.len(),
{
    if s.len() > 1 && !is_space(s[s.len() - 2]) {
        assert(s.drop_last().last() == s[s.len() - 2]);
        lemma_words_nonempty(s.drop_last());
    }
}

/// `str::split_whitespace` on characters.
pub fn words_exec(s: &[char]) -> (r: Vec<Vec<char>>)
    ensures
        views(r@) == words(s@),
{
    let mut done: Vec<Vec<char>> = Vec::new();
    let mut cur: Vec<char> = Vec::new();
    let mut i: usize = 0;
    assert(s@.take(0) =~= Seq::<char>::empty());
    while i < s.len()
        invariant
            i <= s.len(),
            cur@.len() > 0 ==> i > 0 && !is_space(s@[i - 1]),
            cur@.len() == 0 ==> i == 0 || is_space(s@[i - 1]),
            (if cur@.len() > 0 {
                views(done@).push(cur@)
            } else {
                views(done@)
            }) == words(s@.take(i as int)),
        decreases s.len() - i,
    {
        let ghost pre = s@.take(i as int);
        let ghost now = s@.take(i + 1);
        assert(now.drop_last() =~= pre);
        assert(now.last() == s@[i as int]);
        if is_space_exec(s[i]) {
            if cur.len() > 0 {
                let ghost (od, oc) = (done@, cur@);
                done.push(cur);
                assert(views(done@) =~= views(od).push(oc));
                cur = Vec::new();
            }
            assert(words(now) == words(pre));
        } else {
            let ghost before = if cur@.len() > 0 {
                views(done@).push(cur@)
            } else {
                views(done@)
            };
            let had = cur.len() > 0;
            cur.push(s[i]);
            if had {
                assert(now.len() > 1 && now[now.len() - 2] == s@[i - 1]);
                assert(views(done@).push(cur@) =~= before.update(
                    before.len() - 1,
                    before.last().push(s@[i as int]),
                ));
            } else {
                assert(cur@ =~= seq![s@[i as int]]);
                assert(views(done@).push(cur@) =~= before.push(seq![s@[i as int]]));
            }
        }
        i += 1;
    }
    assert(s@.take(s.len() as int) =~= s@);
    if cur.len() > 0 {
        let ghost (od, oc) = (done@, cur@);
        done.push(cur);
        assert(views(done@) =~= views(od).push(oc));
    }
    done
}

/// Decimal digits have a value of at least zero.
pub proof fn lemma_digits_nonnegative(d: Seq<char>)
    requires
        all_digits(d),
    ensures
        digits_value(d) >= 0,
    decreases d.len(),
{
    if d.len() > 0 {
        assert(is_digit(d.last()));
        assert(all_digits(d.drop_last()));
        lemma_digits_nonnegative(d.drop_last());
    }
}

/// Whether every character of `s` is a decimal digit.
pub fn all_digits_exec(s: &[char]) -> (r: bool)
    ensures
        r == all_digits(s@),
{
    let mut i: usize = 0;
    while i < s.len()
        invariant
            i <= s.len(),
            forall|j: int| 0 <= j < i ==> is_digit(#[trigger] s@[j]),
        decreases s.len() - i,
    {
        if !('0' <= s[i] && s[i] <= '9') {
            return false;
        }
        i += 1;
    }
    true
}

proof fn lemma_digits_grow(d: Seq<char>, k: int, bound: int)
    requires
        0 <= k <= d.len(),
        all_digits(d),
        digits_value(d.take(k)) > bound,
        bound >= 0,
    ensures
        digits_value(d) > bound,
    decreases d.len() - k,
{
    if k < d.len() {
        let t = d.take(k + 1);
        assert(t.drop_last() =~= d.take(k));
        assert(is_digit(d[k]));
        lemma_digits_grow(d, k + 1, bound);
    } else {
        assert(d.take(k) =~= d);
    }
}

/// Parses `s` as `FromStr` does for an integer type with bounds
/// `lo..=hi` (both of magnitude at most `2^64`).
#[verifier::loop_isolation(false)]
pub fn parse_integer_exec(s: &[char], lo: i128, hi: i128) -> (r: Option<i128>)
    requires
        -0x1_0000_0000_0000_0000 <= lo <= 0 < hi <= 0x1_0000_0000_0000_0000,
    ensures
        opt_int(r) == parse_integer(s@, lo as int, hi as int),
{
    if s.len() == 0 {
        return None;
    }
    let negative = s[0] == '-' && lo < 0;
    let start: usize = if s[0] == '+' || negative {
        1
    } else {
        0
    };
    let ghost d = if s@[0] == '+' || negative {
        s@.drop_first()
    } else {
        s@
    };
    assert(d =~= s@.subrange(start as int, s.len() as int));
    if start == s.len() {
        return None;
    }
    let limit: i128 = if negative {
        -lo
    } else {
        hi
    };
    let mut acc: i128 = 0;
    let mut i: usize = start;
    while i < s.len()
        invariant
            start <= i <= s.len(),
            d =~= s@.subrange(start as int, s.len() as int),
            0 <= acc <= limit,
            limit <= 0x1_0000_0000_0000_0000,
            acc == digits_value(d.take(i - start)),
            all_digits(d.take(i - start)),
        decreases s.len() - i,
    {
        let c = s[i];
        assert(d.take(i - start + 1).drop_last() =~= d.take(i - start));
        assert(d.take(i - start + 1).last() == c);
        if !('0' <= c && c <= '9') {
            assert(!is_digit(d[i - start]));
            return None;
        }
        acc = acc * 10 + (c as u32 - '0' as u32) as i128;
        i += 1;
        assert forall|j: int| 0 <= j < i - start implies is_digit(#[trigger] d.take(i - start)[j]) by {
            if j < i - start - 1 {
                assert(d.take(i - start)[j] == d.take(i - start - 1)[j]);
            }
        }
        if acc > limit {
            proof {
                if all_digits(d) {
                    lemma_digits_grow(d, i - start, limit as int);
                }
            }
            return None;
        }
    }
    assert(d.take(d.len() as int) =~= d);
    if negative {
        Some(-acc)
    } else {
        Some(acc)
    }
}

/// Decimal text of a natural number.
pub fn decimal_nat_exec(n: u64) -> (r: Vec<char>)
    ensures
        r@ == decimal_nat(n as nat),
    decreases n,
{
    let digit = char_of_digit((n % 10) as u32);
    if n < 10 {
        vec![digit]
    } else {
        let mut r = decimal_nat_exec(n / 10);
        r.push(digit);
        r
    }
}

fn char_of_digit(n: u32) -> (c: char)
    requires
        n < 10,
    ensures
        c == digit_char(n as nat),
{
    match n {
        0 => '0',
        1 => '1',
        2 => '2',
        3 => '3',
        4 => '4',
        5 => '5',
        6 => '6',
        7 => '7',
        8 => '8',
        _ => '9',
    }
}

/// Decimal text of an `i32`, as `Display` writes it.
pub fn decimal_exec(v: i32) -> (r: Vec<char>)
    ensures
        r@ == decimal(v as int),
{
    if v < 0 {
        let m = decimal_nat_exec((-(v as i64)) as u64);
        let mut r = vec!['-'];
        let mut i: usize = 0;
        while i < m.len()
            invariant
                i <= m.len(),
                r@ == seq!['-'] + m@.take(i as int),
            decreases m.len() - i,
        {
            r.push(m[i]);
            i += 1;
            assert(r@ =~= seq!['-'] + m@.take(i as int));
        }
        assert(m@.take(m.len() as int) =~= m@);
        r
    } else {
        decimal_nat_exec(v as u64)
    }
}

/// Appends the characters of `b` to `a`.
pub fn append(a: &mut Vec<char>, b: &[char])
    ensures
        final(a)@ == old(a)@ + b@,
{
    let mut i: usize = 0;
    while i < b.len()
        invariant
            i <= b.len(),
            a@ == old(a)@ + b@.take(i as int),
        decreases b.len() - i,
    {
        a.push(b[i]);
        i += 1;
        assert(a@ =~= old(a)@ + b@.take(i as int));
    }
    assert(b@.take(b.len() as int) =~= b@);
}

/// Width in bytes of the UTF-8 encoding of `c`.
pub fn utf8_width_exec(c: char) -> (r: usize)
    ensures
        r == utf8_width(c),
{
    let n = c as u32;
    if n < 0x80 {
        1
    } else if n < 0x800 {
        2
    } else if n < 0x10000 {
        3
    } else {
        4
    }
}

} // verus!
