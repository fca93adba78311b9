//! Text as a sequence of characters: what the string operations of the other
//! modules mean, and the operations themselves.

use vstd::prelude::*;

verus! {

/// Appends a character to a string, as `String::push` documents it.
pub assume_specification[ String::push ](s: &mut String, c: char)
    ensures
        final(s)@ == old(s)@.push(c),
;

// ---------------------------------------------------------------------------
// Views
// ---------------------------------------------------------------------------

/// The texts of a list of strings.
pub open spec fn texts(v: Seq<String>) -> Seq<Seq<char>> {
    Seq::new(v.len(), |i: int| v[i]@)
}

/// The text of an optional string.
pub open spec fn opt_text(v: Option<String>) -> Option<Seq<char>> {
    match v {
        Some(s) => Some(s@),
        None => None,
    }
}

/// The text of an optional string slice.
pub open spec fn opt_str(v: Option<&str>) -> Option<Seq<char>> {
    match v {
        Some(s) => Some(s@),
        None => None,
    }
}

/// Pushing a string pushes its text.
pub broadcast proof fn lemma_texts_push(v: Seq<String>, s: String)
    ensures
        #[trigger] texts(v.push(s)) == texts(v).push(s@),
{
    assert(texts(v.push(s)) =~= texts(v).push(s@));
}

/// The texts of two lists, one behind the other.
pub broadcast proof fn lemma_texts_add(a: Seq<String>, b: Seq<String>)
    ensures
        #[trigger] texts(a + b) == texts(a) + texts(b),
{
    assert(texts(a + b) =~= texts(a) + texts(b));
}

/// The texts of no strings.
pub broadcast proof fn lemma_texts_empty()
    ensures
        #[trigger] texts(Seq::<String>::empty()) == Seq::<Seq<char>>::empty(),
{
    assert(texts(Seq::<String>::empty()) =~= Seq::<Seq<char>>::empty());
}

pub broadcast group group_texts {
    lemma_texts_push,
    lemma_texts_add,
    lemma_texts_empty,
}

// ---------------------------------------------------------------------------
// Characters
// ---------------------------------------------------------------------------

/// A set of characters that text is trimmed of or split at.
#[derive(Clone, Copy, PartialEq, Eq, Structural, Debug)]
pub enum Class {
    /// Unicode `White_Space`.
    White,
    /// Space, tab, line feed, form feed and carriage return.
    AsciiWhite,
    /// The character `-`.
    Dash,
}

impl Class {
    /// Whether `c` is in the set.
    pub open spec fn has(self, c: char) -> bool {
        match self {
            Class::White => {
                ||| '\u{9}' <= c && c <= '\u{d}'
                ||| c == ' '
                ||| c == '\u{85}'
                ||| c == '\u{a0}'
                ||| c == '\u{1680}'
                ||| '\u{2000}' <= c && c <= '\u{200a}'
                ||| c == '\u{2028}'
                ||| c == '\u{2029}'
                ||| c == '\u{202f}'
                ||| c == '\u{205f}'
                ||| c == '\u{3000}'
            },
            Class::AsciiWhite => c == ' ' || c == '\t' || c == '\n' || c == '\u{c}' || c == '\r',
            Class::Dash => c == '-',
        }
    }

    /// Whether `c` is in the set.
    pub fn test(self, c: char) -> (r: bool)
        ensures
            r == self.has(c),
    {
        match self {
            Class::White => {
                ('\u{9}' <= c && c <= '\u{d}') || c == ' ' || c == '\u{85}' || c == '\u{a0}' || c
                    == '\u{1680}' || ('\u{2000}' <= c && c <= '\u{200a}') || c == '\u{2028}' || c
                    == '\u{2029}' || c == '\u{202f}' || c == '\u{205f}' || c == '\u{3000}'
            },
            Class::AsciiWhite => c == ' ' || c == '\t' || c == '\n' || c == '\u{c}' || c == '\r',
            Class::Dash => c == '-',
        }
    }
}

/// The capital of an ASCII letter; any other character is itself.
pub open spec fn ascii_upper(c: char) -> char {
    if 'a' <= c && c <= 'z' {
        (c as u8 - 32) as u8 as char
    } else {
        c
    }
}

/// The text with its ASCII letters in capitals.
pub open spec fn upper(s: Seq<char>) -> Seq<char> {
    s.map_values(|c: char| ascii_upper(c))
}

/// Whether `c` is one of `0` to `9`.
pub open spec fn is_digit(c: char) -> bool {
    '0' <= c && c <= '9'
}

/// Whether `c` is a hexadecimal digit, in capitals or not.
pub open spec fn is_hex_digit(c: char) -> bool {
    is_digit(c) || ('a' <= c && c <= 'f') || ('A' <= c && c <= 'F')
}

// ---------------------------------------------------------------------------
// Searching
// ---------------------------------------------------------------------------

/// Whether `p` stands in `s` at position `i`.
pub open spec fn occurs_at(s: Seq<char>, p: Seq<char>, i: int) -> bool {
    0 <= i && i + p.len() <= s.len() && s.subrange(i, i + p.len()) == p
}

/// Whether `p` stands somewhere in `s`.
pub open spec fn contains(s: Seq<char>, p: Seq<char>) -> bool {
    exists|i: int| occurs_at(s, p, i)
}

/// The first position from `from` on at which `p` stands in `s`.
pub open spec fn find(s: Seq<char>, p: Seq<char>, from: int) -> Option<int>
    decreases s.len() + 1 - from,
{
    if from < 0 || from + p.len() > s.len() {
        None
    } else if occurs_at(s, p, from) {
        Some(from)
    } else {
        find(s, p, from + 1)
    }
}

/// `find` gives the least position there is, and `None` only where there is none.
pub proof fn lemma_find(s: Seq<char>, p: Seq<char>, from: int)
    requires
        0 <= from,
    ensures
        match find(s, p, from) {
            Some(i) => {
                &&& from <= i
                &&& occurs_at(s, p, i)
                &&& forall|j: int| from <= j < i ==> !occurs_at(s, p, j)
            },
            None => forall|j: int| from <= j ==> !occurs_at(s, p, j),
        },
    decreases s.len() + 1 - from,
{
    if from + p.len() <= s.len() && !occurs_at(s, p, from) {
        lemma_find(s, p, from + 1);
    }
}

/// The parts of `s` before and behind the first `p`.
pub open spec fn split_once(s: Seq<char>, p: Seq<char>) -> Option<(Seq<char>, Seq<char>)> {
    match find(s, p, 0) {
        Some(i) => Some((s.take(i), s.skip(i + p.len()))),
        None => None,
    }
}

/// What is behind the prefix `p`, if `s` begins with it.
pub open spec fn strip_prefix(s: Seq<char>, p: Seq<char>) -> Option<Seq<char>> {
    if p.is_prefix_of(s) {
        Some(s.skip(p.len() as int))
    } else {
        None
    }
}

/// What is before the suffix `p`, if `s` ends with it.
pub open spec fn strip_suffix(s: Seq<char>, p: Seq<char>) -> Option<Seq<char>> {
    if p.is_suffix_of(s) {
        Some(s.take(s.len() - p.len()))
    } else {
        None
    }
}

// ---------------------------------------------------------------------------
// Trimming and splitting
// ---------------------------------------------------------------------------

/// The text without the characters of `class` at its start.
pub open spec fn trim_start(s: Seq<char>, class: Class) -> Seq<char>
    decreases s.len(),
{
    if s.len() > 0 && class.has(s[0]) {
        trim_start(s.drop_first(), class)
    } else {
        s
    }
}

/// The text without the characters of `class` at its end.
pub open spec fn trim_end(s: Seq<char>, class: Class) -> Seq<char>
    decreases s.len(),
{
    if s.len() > 0 && class.has(s.last()) {
        trim_end(s.drop_last(), class)
    } else {
        s
    }
}

/// The text without the characters of `class` at either end.
pub open spec fn trim_class(s: Seq<char>, class: Class) -> Seq<char> {
    trim_end(trim_start(s, class), class)
}

/// What `trim_start` leaves is an end of the text, and does not start in `class`.
proof fn lemma_trim_start(s: Seq<char>, class: Class)
    ensures
        trim_start(s, class).len() <= s.len(),
        trim_start(s, class) == s.skip(s.len() - trim_start(s, class).len()),
        trim_start(s, class).len() > 0 ==> !class.has(trim_start(s, class)[0]),
    decreases s.len(),
{
    if s.len() > 0 && class.has(s[0]) {
        lemma_trim_start(s.drop_first(), class);
        assert(trim_start(s, class) =~= s.skip(s.len() - trim_start(s, class).len()));
    } else {
        assert(s =~= s.skip(0));
    }
}

/// What `trim_end` leaves is a start of the text, and does not end in `class`.
proof fn lemma_trim_end(s: Seq<char>, class: Class)
    ensures
        trim_end(s, class).len() <= s.len(),
        trim_end(s, class) == s.take(trim_end(s, class).len() as int),
        trim_end(s, class).len() > 0 ==> !class.has(trim_end(s, class).last()),
    decreases s.len(),
{
    if s.len() > 0 && class.has(s.last()) {
        lemma_trim_end(s.drop_last(), class);
        assert(trim_end(s, class) =~= s.take(trim_end(s, class).len() as int));
    } else {
        assert(s =~= s.take(s.len() as int));
    }
}

/// What `trim_class` leaves is a part of the text, with no character of `class` at
/// either end.
pub proof fn lemma_trim_class(s: Seq<char>, class: Class)
    ensures
        ({
            let t = trim_class(s, class);
            &&& exists|i: int|
                0 <= i && i + t.len() <= s.len() && t == #[trigger] s.subrange(i, i + t.len())
            &&& t.len() > 0 ==> !class.has(t[0]) && !class.has(t.last())
        }),
{
    let u = trim_start(s, class);
    let t = trim_class(s, class);
    lemma_trim_start(s, class);
    lemma_trim_end(u, class);
    let i = s.len() - u.len();
    assert(t =~= s.subrange(i, i + t.len()));
}

/// The text without white space at either end.
pub open spec fn trim(s: Seq<char>) -> Seq<char> {
    trim_class(s, Class::White)
}

/// The maximal runs of characters outside `class`, in their order.
pub open spec fn words(s: Seq<char>, class: Class) -> Seq<Seq<char>>
    decreases s.len(),
{
    if s.len() == 0 {
        seq![]
    } else {
        let before = words(s.drop_last(), class);
        let c = s.last();
        if class.has(c) {
            before
        } else if s.len() == 1 || class.has(s[s.len() - 2]) {
            before.push(seq![c])
        } else {
            before.drop_last().push(before.last().push(c))
        }
    }
}

/// The position of the first line feed, or the length where there is none.
pub open spec fn line_end(s: Seq<char>) -> int
    decreases s.len(),
{
    if s.len() == 0 || s[0] == '\n' {
        0
    } else {
        1 + line_end(s.drop_first())
    }
}

/// The first line feed, or the end of the text where there is none.
pub proof fn lemma_line_end(s: Seq<char>)
    ensures
        0 <= line_end(s) <= s.len(),
        line_end(s) < s.len() ==> s[line_end(s)] == '\n',
        forall|k: int| 0 <= k < line_end(s) ==> #[trigger] s[k] != '\n',
    decreases s.len(),
{
    if s.len() > 0 && s[0] != '\n' {
        let t = s.drop_first();
        lemma_line_end(t);
        assert forall|k: int| 0 <= k < line_end(s) implies #[trigger] s[k] != '\n' by {
            if k > 0 {
                assert(t[k - 1] == s[k]);
            }
        }
    }
}

/// The text without one carriage return at its end.
pub open spec fn without_cr(s: Seq<char>) -> Seq<char> {
    if s.len() > 0 && s.last() == '\r' {
        s.drop_last()
    } else {
        s
    }
}

/// The lines of a text, without their endings `\n` or `\r\n`. The ending of the
/// last line is optional.
pub open spec fn lines(s: Seq<char>) -> Seq<Seq<char>>
    decreases s.len(),
{
    if s.len() == 0 {
        seq![]
    } else {
        let i = line_end(s);
        if 0 <= i < s.len() {
            seq![without_cr(s.take(i))] + lines(s.skip(i + 1))
        } else {
            seq![s]
        }
    }
}

/// The parts one behind the other, with `sep` between each two.
pub open spec fn join(parts: Seq<Seq<char>>, sep: Seq<char>) -> Seq<char>
    decreases parts.len(),
{
    if parts.len() == 0 {
        seq![]
    } else if parts.len() == 1 {
        parts[0]
    } else {
        join(parts.drop_last(), sep) + sep + parts.last()
    }
}

/// The parts between the characters `sep`: always at least one.
pub open spec fn split_char(s: Seq<char>, sep: char) -> Seq<Seq<char>>
    decreases s.len(),
{
    if s.len() == 0 {
        seq![seq![]]
    } else {
        let before = split_char(s.drop_last(), sep);
        if s.last() == sep {
            before.push(seq![])
        } else {
            before.drop_last().push(before.last().push(s.last()))
        }
    }
}

// ---------------------------------------------------------------------------
// Numbers
// ---------------------------------------------------------------------------

/// The value of a digit, where it is below `radix`.
pub open spec fn digit_value(c: char, radix: nat) -> Option<nat> {
    if is_digit(c) && (c as nat - '0' as nat) < radix {
        Some((c as nat - '0' as nat) as nat)
    } else {
        None
    }
}

/// The number that digits stand for, most significant first.
pub open spec fn digits_value(s: Seq<char>, radix: nat) -> Option<nat>
    decreases s.len(),
{
    if s.len() == 0 {
        Some(0)
    } else {
        match (digits_value(s.drop_last(), radix), digit_value(s.last(), radix)) {
            (Some(v), Some(d)) => Some(v * radix + d),
            _ => None,
        }
    }
}

/// The unsigned number that a text stands for: at least one digit, behind at
/// most one `+`, not above `max`. `radix` is at most ten.
pub open spec fn parse_unsigned(s: Seq<char>, radix: nat, max: nat) -> Option<nat> {
    let body = if s.len() > 0 && s[0] == '+' {
        s.drop_first()
    } else {
        s
    };
    match digits_value(body, radix) {
        Some(v) if body.len() > 0 && v <= max => Some(v),
        _ => None,
    }
}

/// The character for a digit.
pub open spec fn digit_char(d: nat) -> char {
    if d < 10 {
        (d + '0' as nat) as u8 as char
    } else {
        (d - 10 + 'a' as nat) as u8 as char
    }
}

/// The shortest text for a number to the base `radix`.
pub open spec fn number_text(n: nat, radix: nat) -> Seq<char>
    decreases n,
{
    if radix < 2 || n < radix {
        seq![digit_char(n)]
    } else {
        proof {
            vstd::arithmetic::div_mod::lemma_div_decreases(n as int, radix as int);
        }
        number_text(n / radix, radix).push(digit_char(n % radix))
    }
}

/// The decimal text of a number.
pub open spec fn decimal(n: nat) -> Seq<char> {
    number_text(n, 10)
}

/// The text with zeros put before it up to the length `width`.
pub open spec fn zero_padded(s: Seq<char>, width: nat) -> Seq<char> {
    if s.len() >= width {
        s
    } else {
        Seq::new((width - s.len()) as nat, |i: int| '0') + s
    }
}

// ---------------------------------------------------------------------------
// Strings and characters
// ---------------------------------------------------------------------------

/// The characters of a string.
pub fn chars_of(s: &str) -> (r: Vec<char>)
    ensures
        r@ == s@,
{
    let mut r: Vec<char> = Vec::new();
    for c in it: s.chars()
        invariant
            r@ == it.seq().take(it.index() as int),
            it.seq() == s@,
    {
        r.push(c);
    }
    assert(s@.take(s@.len() as int) =~= s@);
    r
}

/// The string of the characters from `from` up to `to`.
pub fn string_of(c: &Vec<char>, from: usize, to: usize) -> (r: String)
    requires
        from <= to <= c@.len(),
    ensures
        r@ == c@.subrange(from as int, to as int),
{
    let mut r = String::new();
    let mut i: usize = from;
    while i < to
        invariant
            from <= i <= to <= c@.len(),
            r@ == c@.subrange(from as int, i as int),
        decreases to - i,
    {
        r.push(c[i]);
        i = i + 1;
        assert(c@.subrange(from as int, i as int) =~= c@.subrange(from as int, i - 1).push(
            c@[i - 1],
        ));
    }
    r
}

/// Whether two texts are the same.
pub fn same(a: &str, b: &str) -> (r: bool)
    ensures
        r == (a@ == b@),
{
    a.to_string() == b.to_string()
}

/// Two texts one behind the other.
pub fn concat2(a: &str, b: &str) -> (r: String)
    ensures
        r@ == a@ + b@,
{
    let mut r = a.to_string();
    r.append(b);
    r
}

/// Three texts one behind the other.
pub fn concat3(a: &str, b: &str, c: &str) -> (r: String)
    ensures
        r@ == a@ + b@ + c@,
{
    let mut r = a.to_string();
    r.append(b);
    r.append(c);
    r
}

/// Whether `p` stands in `s` at position `i`.
fn test_at(s: &Vec<char>, p: &Vec<char>, i: usize) -> (r: bool)
    ensures
        r == occurs_at(s@, p@, i as int),
{
    let n = s.len();
    if i > n || p.len() > n - i {
        return false;
    }
    let mut j: usize = 0;
    while j < p.len()
        invariant
            j <= p@.len(),
            n == s@.len(),
            i + p@.len() <= n,
            forall|k: int| 0 <= k < j ==> s@[i + k] == p@[k],
        decreases p@.len() - j,
    {
        if s[i + j] != p[j] {
            assert(s@.subrange(i as int, i + p@.len())[j as int] != p@[j as int]);
            return false;
        }
        j = j + 1;
    }
    assert(s@.subrange(i as int, i + p@.len()) =~= p@);
    true
}

/// The first position from `from` on at which `p` stands in `s`.
pub fn find_chars(s: &Vec<char>, p: &Vec<char>, from: usize) -> (r: Option<usize>)
    ensures
        match r {
            Some(i) => find(s@, p@, from as int) == Some(i as int),
            None => find(s@, p@, from as int) is None,
        },
{
    let mut i: usize = from;
    while i <= s.len() && p.len() <= s.len() - i
        invariant
            from <= i,
            find(s@, p@, from as int) == find(s@, p@, i as int),
        decreases s@.len() + 1 - i,
    {
        if test_at(s, p, i) {
            return Some(i);
        }
        if i == s.len() {
            assert(find(s@, p@, i + 1) is None);
            return None;
        }
        i = i + 1;
    }
    None
}

/// Whether `p` stands somewhere in `s`.
pub fn has_part(s: &str, p: &str) -> (r: bool)
    ensures
        r == contains(s@, p@),
{
    let sc = chars_of(s);
    let pc = chars_of(p);
    proof {
        lemma_find(s@, p@, 0);
    }
    find_chars(&sc, &pc, 0).is_some()
}

/// Whether `s` begins with `p`.
pub fn begins_with(s: &str, p: &str) -> (r: bool)
    ensures
        r == p@.is_prefix_of(s@),
{
    let sc = chars_of(s);
    let pc = chars_of(p);
    test_at(&sc, &pc, 0)
}

/// Whether `s` ends with `p`.
pub fn ends_with(s: &str, p: &str) -> (r: bool)
    ensures
        r == p@.is_suffix_of(s@),
{
    let sc = chars_of(s);
    let pc = chars_of(p);
    if pc.len() > sc.len() {
        return false;
    }
    test_at(&sc, &pc, sc.len() - pc.len())
}

/// What is behind the prefix `p`, if `s` begins with it.
pub fn after_prefix(s: &str, p: &str) -> (r: Option<String>)
    ensures
        opt_text(r) == strip_prefix(s@, p@),
{
    let sc = chars_of(s);
    let pc = chars_of(p);
    if test_at(&sc, &pc, 0) {
        let rest = string_of(&sc, pc.len(), sc.len());
        assert(rest@ =~= s@.skip(p@.len() as int));
        Some(rest)
    } else {
        None
    }
}

/// What is before the suffix `p`, if `s` ends with it.
pub fn before_suffix(s: &str, p: &str) -> (r: Option<String>)
    ensures
        opt_text(r) == strip_suffix(s@, p@),
{
    let sc = chars_of(s);
    let pc = chars_of(p);
    if pc.len() <= sc.len() && test_at(&sc, &pc, sc.len() - pc.len()) {
        let rest = string_of(&sc, 0, sc.len() - pc.len());
        assert(rest@ =~= s@.take(s@.len() - p@.len()));
        Some(rest)
    } else {
        None
    }
}

/// The parts of `s` before and behind the first `p`.
pub fn cut_once(s: &str, p: &str) -> (r: Option<(String, String)>)
    ensures
        match r {
            Some((a, b)) => split_once(s@, p@) == Some((a@, b@)),
            None => split_once(s@, p@) is None,
        },
{
    let sc = chars_of(s);
    let pc = chars_of(p);
    let n = sc.len();
    proof {
        lemma_find(s@, p@, 0);
    }
    match find_chars(&sc, &pc, 0) {
        Some(i) => {
            let a = string_of(&sc, 0, i);
            let b = string_of(&sc, i + pc.len(), n);
            assert(a@ =~= s@.take(i as int));
            assert(b@ =~= s@.skip(i + p@.len()));
            Some((a, b))
        },
        None => None,
    }
}

// ---------------------------------------------------------------------------
// Trimming and splitting strings
// ---------------------------------------------------------------------------

/// The position behind the characters of `class` at the start.
fn start_of(s: &Vec<char>, class: Class) -> (r: usize)
    ensures
        r <= s@.len(),
        trim_start(s@, class) == s@.skip(r as int),
{
    let mut i: usize = 0;
    assert(s@.skip(0) =~= s@);
    while i < s.len() && class.test(s[i])
        invariant
            i <= s@.len(),
            trim_start(s@, class) == trim_start(s@.skip(i as int), class),
        decreases s@.len() - i,
    {
        assert(s@.skip(i as int).drop_first() =~= s@.skip(i + 1));
        i = i + 1;
    }
    i
}

/// The text without the characters of `class` at its start.
pub fn trimmed_start(s: &str, class: Class) -> (r: String)
    ensures
        r@ == trim_start(s@, class),
{
    let sc = chars_of(s);
    let i = start_of(&sc, class);
    let r = string_of(&sc, i, sc.len());
    assert(r@ =~= s@.skip(i as int));
    r
}

/// The text without the characters of `class` at either end.
pub fn trimmed_class(s: &str, class: Class) -> (r: String)
    ensures
        r@ == trim_class(s@, class),
{
    let sc = chars_of(s);
    let i = start_of(&sc, class);
    let mut j: usize = sc.len();
    assert(s@.subrange(i as int, j as int) =~= s@.skip(i as int));
    while j > i && class.test(sc[j - 1])
        invariant
            i <= j <= sc@.len(),
            sc@ == s@,
            trim_class(s@, class) == trim_end(s@.subrange(i as int, j as int), class),
        decreases j,
    {
        assert(s@.subrange(i as int, j as int).drop_last() =~= s@.subrange(i as int, j - 1));
        j = j - 1;
    }
    string_of(&sc, i, j)
}

/// The text without white space at either end.
pub fn trimmed(s: &str) -> (r: String)
    ensures
        r@ == trim(s@),
{
    trimmed_class(s, Class::White)
}

/// The maximal runs of characters outside `class`, in their order.
pub fn words_of(s: &str, class: Class) -> (r: Vec<String>)
    ensures
        texts(r@) == words(s@, class),
{
    broadcast use group_texts;

    let sc = chars_of(s);
    let mut done: Vec<String> = Vec::new();
    let mut word = String::new();
    let mut i: usize = 0;
    while i < sc.len()
        invariant
            i <= sc@.len(),
            sc@ == s@,
            i > 0 && !class.has(s@[i - 1]) ==> words(s@.take(i as int), class) == texts(
                done@,
            ).push(word@),
            i == 0 || class.has(s@[i - 1]) ==> words(s@.take(i as int), class) == texts(done@)
                && word@.len() == 0,
        decreases sc@.len() - i,
    {
        let c = sc[i];
        let ghost now = s@.take(i + 1);
        assert(now.drop_last() =~= s@.take(i as int));
        if class.test(c) {
            if i > 0 && !class.test(sc[i - 1]) {
                done.push(word);
                word = String::new();
            }
            assert(word@ =~= Seq::<char>::empty());
        } else {
            let ghost before = word@;
            let ghost old_words = texts(done@);
            word.push(c);
            proof {
                if i > 0 && !class.has(s@[i - 1]) {
                    assert(now[now.len() - 2] == s@[i - 1]);
                    assert(old_words.push(before).drop_last() =~= old_words);
                } else {
                    assert(i > 0 ==> now[now.len() - 2] == s@[i - 1]);
                    assert(word@ =~= seq![c]);
                }
            }
        }
        i = i + 1;
    }
    assert(s@.take(i as int) =~= s@);
    if i > 0 && !class.test(sc[i - 1]) {
        done.push(word);
    }
    done
}

/// The position of the first line feed from `start` on, or the length.
fn line_end_from(s: &Vec<char>, start: usize) -> (r: usize)
    requires
        start <= s@.len(),
    ensures
        start <= r <= s@.len(),
        r - start == line_end(s@.skip(start as int)),
        r < s@.len() ==> s@[r as int] == '\n',
{
    let ghost rest = s@.skip(start as int);
    let mut i: usize = start;
    assert(rest.skip(0) =~= rest);
    while i < s.len() && s[i] != '\n'
        invariant
            start <= i <= s@.len(),
            rest == s@.skip(start as int),
            line_end(rest) == (i - start) + line_end(rest.skip(i - start)),
        decreases s@.len() - i,
    {
        assert(rest.skip(i - start).drop_first() =~= rest.skip(i + 1 - start));
        i = i + 1;
    }
    i
}

/// One step of [`lines`] from position `start`, where the line ends at `i`.
proof fn lemma_lines_step(s: Seq<char>, start: int, i: int)
    requires
        0 <= start < s.len(),
        i - start == line_end(s.skip(start)),
        start <= i <= s.len(),
    ensures
        i < s.len() ==> lines(s.skip(start)) == seq![without_cr(s.subrange(start, i))] + lines(
            s.skip(i + 1),
        ),
        i == s.len() ==> lines(s.skip(start)) == seq![s.subrange(start, i)],
{
    let rest = s.skip(start);
    assert(rest.take(i - start) =~= s.subrange(start, i));
    if i < s.len() {
        assert(rest.skip(i - start + 1) =~= s.skip(i + 1));
    } else {
        assert(rest =~= s.subrange(start, i));
    }
}

/// The lines of a text, without their endings.
pub fn lines_of(s: &str) -> (r: Vec<String>)
    ensures
        texts(r@) == lines(s@),
{
    let sc = chars_of(s);
    let mut out: Vec<String> = Vec::new();
    let mut start: usize = 0;
    assert(s@.skip(0) =~= s@);
    assert(texts(out@) + lines(s@) =~= lines(s@));
    while start < sc.len()
        invariant
            start <= sc@.len(),
            sc@ == s@,
            lines(s@) == texts(out@) + lines(s@.skip(start as int)),
        decreases sc@.len() - start,
    {
        let i = line_end_from(&sc, start);
        proof {
            lemma_lines_step(s@, start as int, i as int);
        }
        let ghost done = texts(out@);
        if i < sc.len() {
            let mut end: usize = i;
            if end > start && sc[end - 1] == '\r' {
                end = end - 1;
            }
            let line = string_of(&sc, start, end);
            assert(line@ =~= without_cr(s@.subrange(start as int, i as int)));
            let ghost rest = lines(s@.skip(i + 1));
            assert(done + (seq![line@] + rest) =~= done.push(line@) + rest);
            proof {
                lemma_texts_push(out@, line);
            }
            out.push(line);
            start = i + 1;
        } else {
            let line = string_of(&sc, start, i);
            proof {
                lemma_texts_push(out@, line);
                assert(s@.skip(i as int).len() == 0);
                assert(lines(s@.skip(i as int)) == Seq::<Seq<char>>::empty());
                assert(done + seq![line@] =~= done.push(line@) + Seq::<Seq<char>>::empty());
            }
            out.push(line);
            start = i;
        }
    }
    assert(s@.skip(start as int).len() == 0);
    assert(texts(out@) + lines(s@.skip(start as int)) =~= texts(out@));
    out
}

/// The parts one behind the other, with `sep` between each two.
pub fn joined(parts: &Vec<String>, sep: &str) -> (r: String)
    ensures
        r@ == join(texts(parts@), sep@),
{
    let mut r = String::new();
    let mut i: usize = 0;
    let ghost all = texts(parts@);
    assert(all.take(0) =~= Seq::<Seq<char>>::empty());
    while i < parts.len()
        invariant
            i <= parts@.len(),
            all == texts(parts@),
            r@ == join(all.take(i as int), sep@),
        decreases parts@.len() - i,
    {
        assert(all.take(i + 1).drop_last() =~= all.take(i as int));
        if i > 0 {
            r.append(sep);
        } else {
            assert(Seq::<char>::empty() + all[0] =~= all[0]);
        }
        r.append(parts[i].as_str());
        i = i + 1;
    }
    assert(all.take(i as int) =~= all);
    r
}

// ---------------------------------------------------------------------------
// Numbers in strings
// ---------------------------------------------------------------------------

/// Digits that have a value keep it when digits before them are dropped.
proof fn lemma_digits_prefix(s: Seq<char>, i: int, radix: nat)
    requires
        0 <= i <= s.len(),
        digits_value(s.take(i), radix) is None,
    ensures
        digits_value(s, radix) is None,
    decreases s.len() - i,
{
    if i < s.len() {
        assert(s.take(i + 1).drop_last() =~= s.take(i));
        lemma_digits_prefix(s, i + 1, radix);
    } else {
        assert(s.take(i) =~= s);
    }
}

/// More digits stand for no smaller a number.
proof fn lemma_digits_grow(s: Seq<char>, i: int, radix: nat)
    requires
        0 <= i <= s.len(),
        1 <= radix,
        digits_value(s, radix) is Some,
    ensures
        digits_value(s.take(i), radix) is Some,
        digits_value(s.take(i), radix)->0 <= digits_value(s, radix)->0,
    decreases s.len(),
{
    if i < s.len() {
        lemma_digits_grow(s.drop_last(), i, radix);
        assert(s.drop_last().take(i) =~= s.take(i));
        let v = digits_value(s.drop_last(), radix)->0;
        assert(v <= v * radix) by (nonlinear_arith)
            requires
                1 <= radix,
                0 <= v,
        ;
    } else {
        assert(s.take(i) =~= s);
    }
}

/// The unsigned number that a text stands for, where it is not above `max`.
pub fn unsigned_of(s: &str, radix: u64, max: u64) -> (r: Option<u64>)
    requires
        2 <= radix <= 10,
    ensures
        match r {
            Some(v) => parse_unsigned(s@, radix as nat, max as nat) == Some(v as nat),
            None => parse_unsigned(s@, radix as nat, max as nat) is None,
        },
{
    let sc = chars_of(s);
    let start: usize = if sc.len() > 0 && sc[0] == '+' {
        1
    } else {
        0
    };
    let ghost body = if s@.len() > 0 && s@[0] == '+' {
        s@.drop_first()
    } else {
        s@
    };
    assert(body =~= s@.skip(start as int));
    if start == sc.len() {
        return None;
    }
    let mut v: u64 = 0;
    let mut i: usize = start;
    assert(body.take(0) =~= Seq::<char>::empty());
    while i < sc.len()
        invariant
            start <= i <= sc@.len(),
            sc@ == s@,
            body == s@.skip(start as int),
            body.len() > 0,
            2 <= radix <= 10,
            v <= max,
            digits_value(body.take(i - start), radix as nat) == Some(v as nat),
            parse_unsigned(s@, radix as nat, max as nat) == (match digits_value(
                body,
                radix as nat,
            ) {
                Some(n) if body.len() > 0 && n <= max as nat => Some(n),
                _ => None,
            }),
        decreases sc@.len() - i,
    {
        let c = sc[i];
        assert(body.take(i + 1 - start).drop_last() =~= body.take(i - start));
        assert(body.take(i + 1 - start).last() == c);
        if !('0' <= c && c <= '9') || (c as u64 - '0' as u64) >= radix {
            proof {
                lemma_digits_prefix(body, i + 1 - start, radix as nat);
            }
            return None;
        }
        let d: u64 = c as u64 - '0' as u64;
        assert((v as u128) * (radix as u128) <= 0xffff_ffff_ffff_ffffu128 * 10) by (nonlinear_arith)
            requires
                v <= 0xffff_ffff_ffff_ffffu64,
                radix <= 10,
        ;
        let wide: u128 = (v as u128) * (radix as u128);
        let next: u128 = wide + (d as u128);
        assert(digits_value(body.take(i + 1 - start), radix as nat) == Some(next as nat));
        if next > max as u128 {
            proof {
                if digits_value(body, radix as nat) is Some {
                    lemma_digits_grow(body, i + 1 - start, radix as nat);
                }
            }
            return None;
        }
        v = next as u64;
        i = i + 1;
    }
    assert(body.take(i - start) =~= body);
    Some(v)
}

/// The character for a digit.
fn char_of_digit(d: u64) -> (r: char)
    requires
        d < 16,
    ensures
        r == digit_char(d as nat),
{
    if d < 10 {
        (d as u8 + '0' as u8) as char
    } else {
        (d as u8 - 10 + 'a' as u8) as char
    }
}

/// The shortest text for a number to the base `radix`, with zeros put before it
/// up to the length `width`.
pub fn number_string(n: u64, radix: u64, width: usize) -> (r: String)
    requires
        2 <= radix <= 16,
    ensures
        r@ == zero_padded(number_text(n as nat, radix as nat), width as nat),
{
    let mut back: Vec<char> = Vec::new();
    let mut m: u64 = n;
    let ghost all = number_text(n as nat, radix as nat);
    assert(back@.reverse() =~= Seq::<char>::empty());
    assert(number_text(m as nat, radix as nat) + back@.reverse() =~= all);
    while m >= radix
        invariant
            2 <= radix <= 16,
            all == number_text(m as nat, radix as nat) + back@.reverse(),
        decreases m,
    {
        let d = char_of_digit(m % radix);
        proof {
            vstd::arithmetic::div_mod::lemma_div_decreases(m as int, radix as int);
            let rest = number_text((m / radix) as nat, radix as nat);
            assert(number_text(m as nat, radix as nat) == rest.push(d));
            assert(back@.push(d).reverse() =~= seq![d] + back@.reverse());
            assert(rest.push(d) + back@.reverse() =~= rest + (seq![d] + back@.reverse()));
        }
        back.push(d);
        m = m / radix;
    }
    let d = char_of_digit(m);
    assert(back@.push(d).reverse() =~= seq![d] + back@.reverse());
    back.push(d);
    assert(all == back@.reverse());
    let mut r = String::new();
    let mut pad: usize = back.len();
    while pad < width
        invariant
            back@.len() <= pad,
            pad <= width || pad == back@.len(),
            r@ == Seq::new((pad - back@.len()) as nat, |i: int| '0'),
        decreases width - pad,
    {
        r.push('0');
        pad = pad + 1;
        assert(r@ =~= Seq::new((pad - back@.len()) as nat, |i: int| '0'));
    }
    let ghost zeros = r@;
    let mut i: usize = back.len();
    assert(zeros + all.take(0) =~= zeros);
    while i > 0
        invariant
            i <= back@.len(),
            all == back@.reverse(),
            r@ == zeros + all.take(back@.len() - i),
        decreases i,
    {
        i = i - 1;
        r.push(back[i]);
        assert(zeros + all.take(back@.len() - i) =~= (zeros + all.take(
            back@.len() - i - 1,
        )).push(back@[i as int]));
    }
    assert(all.take(back@.len() as int) =~= all);
    assert(zeros.len() == 0 ==> zeros + all =~= all);
    r
}

/// The decimal text of a number.
pub fn decimal_of(n: u64) -> (r: String)
    ensures
        r@ == decimal(n as nat),
{
    proof {
        lemma_number_text_nonempty(n as nat, 10);
    }
    number_string(n, 10, 0)
}

/// A number has at least one digit.
proof fn lemma_number_text_nonempty(n: nat, radix: nat)
    ensures
        number_text(n, radix).len() > 0,
{
}

/// The text with its ASCII letters in capitals.
pub fn uppercase(s: &str) -> (r: String)
    ensures
        r@ == upper(s@),
{
    let sc = chars_of(s);
    let mut r = String::new();
    let mut i: usize = 0;
    while i < sc.len()
        invariant
            i <= sc@.len(),
            sc@ == s@,
            r@ == upper(s@).take(i as int),
        decreases sc@.len() - i,
    {
        let c = sc[i];
        let u = if 'a' <= c && c <= 'z' {
            (c as u8 - 32) as char
        } else {
            c
        };
        r.push(u);
        i = i + 1;
        assert(upper(s@).take(i as int) =~= upper(s@).take(i - 1).push(u));
    }
    assert(upper(s@).take(i as int) =~= upper(s@));
    r
}

/// Whether `list` holds a text equal to `s`.
pub fn listed(list: &Vec<String>, s: &str) -> (r: bool)
    ensures
        r == texts(list@).contains(s@),
{
    let mut i: usize = 0;
    while i < list.len()
        invariant
            i <= list@.len(),
            forall|j: int| 0 <= j < i ==> texts(list@)[j] != s@,
        decreases list@.len() - i,
    {
        if same(list[i].as_str(), s) {
            assert(texts(list@)[i as int] == s@);
            return true;
        }
        i = i + 1;
    }
    false
}

/// Appends a copy of a text to a list.
pub fn push_text(list: &mut Vec<String>, s: &str)
    ensures
        texts(final(list)@) == texts(old(list)@).push(s@),
{
    broadcast use group_texts;

    list.push(s.to_string());
}

/// Appends copies of the texts of another list.
pub fn push_texts(list: &mut Vec<String>, other: &Vec<String>)
    ensures
        texts(final(list)@) == texts(old(list)@) + texts(other@),
{
    let ghost before = texts(list@);
    let mut i: usize = 0;
    assert(before + texts(other@).take(0) =~= before);
    while i < other.len()
        invariant
            i <= other@.len(),
            texts(list@) == before + texts(other@).take(i as int),
        decreases other@.len() - i,
    {
        push_text(list, other[i].as_str());
        assert(texts(other@).take(i + 1) =~= texts(other@).take(i as int).push(other@[i as int]@));
        assert(texts(list@) =~= before + texts(other@).take(i + 1));
        i = i + 1;
    }
    assert(texts(other@).take(i as int) =~= texts(other@));
}

/// An empty list of texts.
pub fn no_texts() -> (r: Vec<String>)
    ensures
        texts(r@) == Seq::<Seq<char>>::empty(),
{
    let r: Vec<String> = Vec::new();
    assert(texts(r@) =~= Seq::<Seq<char>>::empty());
    r
}

// ---------------------------------------------------------------------------
// Lengths in bytes
// ---------------------------------------------------------------------------

/// The length of a text in UTF-8.
pub open spec fn byte_len(s: Seq<char>) -> nat {
    vstd::utf8::encode_utf8(s).len()
}

/// The length of a character in UTF-8.
pub fn char_width(c: char) -> (r: usize)
    ensures
        r == vstd::utf8::encode_scalar(c as u32).len(),
{
    let n = c as u32;
    if n <= 0x7f {
        1
    } else if n <= 0x7ff {
        2
    } else if n <= 0xffff {
        3
    } else {
        4
    }
}

/// The longest end of a text that takes no more than `limit` bytes.
pub open spec fn clamped(s: Seq<char>, limit: nat) -> Seq<char>
    decreases s.len(),
{
    if s.len() == 0 || byte_len(s) <= limit {
        s
    } else {
        clamped(s.drop_first(), limit)
    }
}

/// The longest end of a text that takes no more than `limit` bytes.
pub fn clamp(s: &str, limit: usize) -> (r: String)
    ensures
        r@ == clamped(s@, limit as nat),
{
    let chars = chars_of(s);
    let n = chars.len();
    let mut left: usize = s.as_bytes().len();
    let mut i: usize = 0;
    assert(s@.skip(0) =~= s@);
    while i < n && left > limit
        invariant
            n == chars@.len(),
            chars@ == s@,
            i <= n,
            left == byte_len(s@.skip(i as int)),
            clamped(s@, limit as nat) == clamped(s@.skip(i as int), limit as nat),
        decreases n - i,
    {
        let ghost rest = s@.skip(i as int);
        assert(rest[0] == chars@[i as int]);
        assert(rest.drop_first() =~= s@.skip(i + 1));
        let w = char_width(chars[i]);
        left = left - w;
        i = i + 1;
    }
    assert(s@.subrange(i as int, n as int) =~= s@.skip(i as int));
    string_of(&chars, i, n)
}

/// What is left of a text is an end of it, within the limit, and one character more would
/// not be.
pub proof fn lemma_clamped(s: Seq<char>, limit: nat)
    ensures
        clamped(s, limit).is_suffix_of(s),
        byte_len(clamped(s, limit)) <= limit,
        clamped(s, limit).len() < s.len() ==> byte_len(
            s.skip(s.len() - clamped(s, limit).len() - 1),
        ) > limit,
    decreases s.len(),
{
    if s.len() > 0 && byte_len(s) > limit {
        let t = s.drop_first();
        lemma_clamped(t, limit);
        let c = clamped(t, limit);
        assert(c =~= s.skip(s.len() - c.len()));
        if c.len() < t.len() {
            assert(t.skip(t.len() - c.len() - 1) =~= s.skip(s.len() - c.len() - 1));
        } else {
            assert(s.skip(0) =~= s);
        }
    } else {
        assert(s =~= s.skip(0));
    }
}

/// A number that may be negative, in decimal.
pub open spec fn signed_decimal(n: int) -> Seq<char> {
    if n < 0 {
        "-"@ + decimal((-n) as nat)
    } else {
        decimal(n as nat)
    }
}

/// A number that may be negative, in decimal.
pub fn signed_decimal_of(n: i32) -> (r: String)
    ensures
        r@ == signed_decimal(n as int),
{
    if n < 0 {
        let m = decimal_of((-(n as i64)) as u64);
        concat2("-", m.as_str())
    } else {
        decimal_of(n as u64)
    }
}

/// A digit stands for one number only.
proof fn lemma_digit_char_injective(a: nat, b: nat)
    requires
        a < 16,
        b < 16,
        digit_char(a) == digit_char(b),
    ensures
        a == b,
{
}

/// Numbers with the same text are the same.
pub proof fn lemma_number_text_injective(a: nat, b: nat, radix: nat)
    requires
        2 <= radix <= 16,
        number_text(a, radix) == number_text(b, radix),
    ensures
        a == b,
    decreases a,
{
    let s = number_text(a, radix);
    lemma_number_text_nonempty(a / radix, radix);
    lemma_number_text_nonempty(b / radix, radix);
    if a < radix || b < radix {
        assert(s.len() == 1);
        assert(a < radix && b < radix);
        assert(s[0] == digit_char(a) && s[0] == digit_char(b));
        lemma_digit_char_injective(a, b);
    } else {
        vstd::arithmetic::div_mod::lemma_div_decreases(a as int, radix as int);
        let x = number_text(a / radix, radix);
        let y = number_text(b / radix, radix);
        assert(s == x.push(digit_char(a % radix)));
        assert(s == y.push(digit_char(b % radix)));
        assert(s.drop_last() =~= x);
        assert(s.drop_last() =~= y);
        assert(s.last() == digit_char(a % radix) && s.last() == digit_char(b % radix));
        vstd::arithmetic::div_mod::lemma_mod_bound(a as int, radix as int);
        vstd::arithmetic::div_mod::lemma_mod_bound(b as int, radix as int);
        lemma_digit_char_injective(a % radix, b % radix);
        lemma_number_text_injective(a / radix, b / radix, radix);
        vstd::arithmetic::div_mod::lemma_fundamental_div_mod(a as int, radix as int);
        vstd::arithmetic::div_mod::lemma_fundamental_div_mod(b as int, radix as int);
    }
}

/// There is always at least one part.
pub proof fn lemma_split_char_nonempty(s: Seq<char>, sep: char)
    ensures
        split_char(s, sep).len() > 0,
    decreases s.len(),
{
    if s.len() > 0 {
        lemma_split_char_nonempty(s.drop_last(), sep);
    }
}

/// The parts between the characters `sep`.
pub fn split_at_char(s: &str, sep: char) -> (r: Vec<String>)
    ensures
        texts(r@) == split_char(s@, sep),
{
    let chars = chars_of(s);
    let mut parts = no_texts();
    let mut part = String::new();
    let mut i: usize = 0;
    proof {
        assert(part@ =~= seq![]);
        assert(s@.take(0) =~= seq![]);
        assert(texts(parts@).push(part@) =~= split_char(s@.take(0), sep));
    }
    while i < chars.len()
        invariant
            i <= chars@.len(),
            chars@ == s@,
            texts(parts@).push(part@) == split_char(s@.take(i as int), sep),
        decreases chars@.len() - i,
    {
        let c = chars[i];
        let ghost before = texts(parts@).push(part@);
        assert(s@.take(i + 1).drop_last() =~= s@.take(i as int));
        assert(s@.take(i + 1).last() == c);
        assert(before.drop_last() =~= texts(parts@));
        assert(before.last() == part@);
        if c == sep {
            push_text(&mut parts, part.as_str());
            part = String::new();
            assert(part@ =~= seq![]);
        } else {
            part.push(c);
        }
        assert(texts(parts@).push(part@) =~= split_char(s@.take(i + 1), sep));
        i = i + 1;
    }
    push_text(&mut parts, part.as_str());
    assert(s@.take(i as int) =~= s@);
    parts
}

// ---------------------------------------------------------------------------
// Bytes
// ---------------------------------------------------------------------------

/// What `String::from_utf8_lossy` makes of bytes.
pub uninterp spec fn lossy(bytes: Seq<u8>) -> Seq<char>;

/// Calls `String::from_utf8_lossy`: the text that the bytes encode; where they are no
/// UTF-8, replacement characters stand in for what is not. Which bytes share one
/// replacement character is not written out here.
#[verifier::external_body]
pub(crate) fn text_of_bytes(bytes: &[u8]) -> (r: String)
    ensures
        r@ == lossy(bytes@),
        vstd::utf8::valid_utf8(bytes@) ==> r@ == vstd::utf8::decode_utf8(bytes@),
{
    String::from_utf8_lossy(bytes).into_owned()
}

// ---------------------------------------------------------------------------
// Quoting
// ---------------------------------------------------------------------------

/// A text as its `Debug` format shows it.
pub uninterp spec fn quoted(s: Seq<char>) -> Seq<char>;

/// Calls the `Debug` format of a string, which puts it between quotes and escapes what does
/// not print. The result depends on the text alone; the table of what prints is not written
/// out here.
#[verifier::external_body]
pub(crate) fn quote(s: &str) -> (r: String)
    ensures
        r@ == quoted(s@),
{
    format!("{:?}", s)
}

// ---------------------------------------------------------------------------
// Laws of the text functions
// ---------------------------------------------------------------------------

/// Whether a character stands nowhere in a text.
pub open spec fn lacks(s: Seq<char>, c: char) -> bool {
    forall|i: int| 0 <= i < s.len() ==> #[trigger] s[i] != c
}

/// A text in which the separator stands nowhere is its only part, and the separator parts a text in
/// two that are split on their own, wherever it stands.
pub proof fn law_split_char(a: Seq<char>, b: Seq<char>, sep: char)
    ensures
        lacks(a, sep) ==> split_char(a, sep) == seq![a],
        split_char(a.push(sep) + b, sep) == split_char(a, sep) + split_char(b, sep),
    decreases a.len() + b.len(),
{
    if lacks(a, sep) {
        lemma_split_char_whole(a, sep);
    }
    let s = a.push(sep) + b;
    if b.len() == 0 {
        assert(s =~= a.push(sep));
        assert(s.drop_last() =~= a);
        assert(split_char(s, sep) =~= split_char(a, sep) + split_char(b, sep));
    } else {
        law_split_char(a, b.drop_last(), sep);
        lemma_split_char_nonempty(b.drop_last(), sep);
        assert(s.drop_last() =~= a.push(sep) + b.drop_last());
        assert(s.last() == b.last());
        assert(split_char(s, sep) =~= split_char(a, sep) + split_char(b, sep));
    }
}

/// A text without the separator is its only part.
proof fn lemma_split_char_whole(a: Seq<char>, sep: char)
    requires
        lacks(a, sep),
    ensures
        split_char(a, sep) == seq![a],
    decreases a.len(),
{
    if a.len() == 0 {
        assert(a =~= seq![]);
    } else {
        let head = a.drop_last();
        assert forall|i: int| 0 <= i < head.len() implies #[trigger] head[i] != sep by {
            assert(head[i] == a[i]);
        }
        lemma_split_char_whole(head, sep);
        assert(a[a.len() - 1] != sep);
        assert(head.push(a.last()) =~= a);
        assert(split_char(a, sep) =~= seq![a]);
    }
}

/// Whether a text is one word: not empty, without ASCII white space.
pub open spec fn is_word(s: Seq<char>) -> bool {
    s.len() > 0 && lacks(s, ' ') && lacks(s, '\t') && lacks(s, '\n') && lacks(s, '\r') && lacks(
        s,
        '\u{c}',
    )
}

/// A word is its own only word, and each character of ASCII white space parts a text in two whose
/// words stand on their own.
pub proof fn law_words(a: Seq<char>, c: char, b: Seq<char>)
    requires
        c == ' ' || c == '\t' || c == '\n' || c == '\r' || c == '\u{c}',
    ensures
        is_word(a) ==> words(a, Class::AsciiWhite) == seq![a],
        words(a.push(c) + b, Class::AsciiWhite) == words(a, Class::AsciiWhite) + words(
            b,
            Class::AsciiWhite,
        ),
    decreases b.len(),
{
    let w = Class::AsciiWhite;
    if is_word(a) {
        lemma_word_is_whole(a);
    }
    let s = a.push(c) + b;
    if b.len() == 0 {
        assert(s =~= a.push(c));
        assert(s.drop_last() =~= a);
        assert(words(s, w) =~= words(a, w) + words(b, w));
    } else {
        let head = b.drop_last();
        law_words(a, c, head);
        assert(s.drop_last() =~= a.push(c) + head);
        assert(s.last() == b.last());
        if b.len() == 1 {
            assert(s[s.len() - 2] == c);
        } else {
            assert(s[s.len() - 2] == b[b.len() - 2]);
            if !w.has(b[b.len() - 2]) {
                lemma_ends_in_word(head);
            }
        }
        assert(words(s, w) =~= words(a, w) + words(b, w));
    }
}

/// A text that does not end in white space has a word.
proof fn lemma_ends_in_word(s: Seq<char>)
    requires
        s.len() > 0,
        !Class::AsciiWhite.has(s.last()),
    ensures
        words(s, Class::AsciiWhite).len() > 0,
{
}

/// A word is its own only word.
proof fn lemma_word_is_whole(a: Seq<char>)
    requires
        is_word(a),
    ensures
        words(a, Class::AsciiWhite) == seq![a],
    decreases a.len(),
{
    let w = Class::AsciiWhite;
    let head = a.drop_last();
    assert(a.last() == a[a.len() - 1]);
    assert(!w.has(a.last()));
    if a.len() == 1 {
        assert(words(head, w) =~= seq![]);
        assert(seq![a.last()] =~= a);
        assert(words(a, w) =~= seq![a]);
    } else {
        assert(is_word(head)) by {
            assert forall|c: char| lacks(a, c) implies #[trigger] lacks(head, c) by {
                assert forall|i: int| 0 <= i < head.len() implies #[trigger] head[i] != c by {
                    assert(head[i] == a[i]);
                }
            }
        }
        lemma_word_is_whole(head);
        assert(!w.has(a[a.len() - 2]));
        assert(head.push(a.last()) =~= a);
        assert(words(a, w) =~= seq![a]);
    }
}

/// A line ends at the first line feed, and a carriage return before that belongs to its end; what
/// follows has its own lines. A last line needs no line feed, and keeps its carriage return.
pub proof fn law_lines(a: Seq<char>, rest: Seq<char>)
    requires
        lacks(a, '\n'),
    ensures
        a.len() == 0 || a.last() != '\r' ==> lines(a.push('\n') + rest) == seq![a] + lines(rest),
        lines(a.push('\r').push('\n') + rest) == seq![a] + lines(rest),
        a.len() > 0 ==> lines(a) == seq![a],
        lines(seq![]) == Seq::<Seq<char>>::empty(),
{
    lemma_lines_of(a, rest);
    let b = a.push('\r');
    assert(lacks(b, '\n')) by {
        assert forall|i: int| 0 <= i < b.len() implies #[trigger] b[i] != '\n' by {
            if i < a.len() {
                assert(b[i] == a[i]);
            }
        }
    }
    lemma_lines_of(b, rest);
    assert(b.drop_last() =~= a);
    lemma_line_end(a);
    if a.len() > 0 {
        assert(line_end(a) == a.len()) by {
            if line_end(a) < a.len() {
                assert(a[line_end(a)] != '\n');
            }
        }
        assert(lines(a) == seq![a]);
    }
}

/// The first line ends at the first line feed.
proof fn lemma_lines_of(a: Seq<char>, rest: Seq<char>)
    requires
        lacks(a, '\n'),
    ensures
        lines(a.push('\n') + rest) == seq![without_cr(a)] + lines(rest),
{
    let s = a.push('\n') + rest;
    lemma_line_end(s);
    assert(s[a.len() as int] == '\n');
    assert(line_end(s) == a.len()) by {
        if line_end(s) < a.len() {
            assert(s[line_end(s)] == a[line_end(s)]);
        }
    }
    assert(s.take(a.len() as int) =~= a);
    assert(s.skip(a.len() as int + 1) =~= rest);
}

/// Whether a text is made of ASCII white space alone: spaces, tabs, line feeds and carriage returns.
pub open spec fn is_blank(s: Seq<char>) -> bool {
    forall|i: int|
        0 <= i < s.len() ==> #[trigger] s[i] == ' ' || s[i] == '\t' || s[i] == '\n' || s[i] == '\r'
}

/// Whether a character is one that prints and is ASCII.
pub open spec fn is_printable_ascii(c: char) -> bool {
    '!' <= c && c <= '~'
}

/// White space at either end goes, and nothing else: not what stands between two characters that
/// print.
pub proof fn law_trim(before: Seq<char>, t: Seq<char>, after: Seq<char>)
    requires
        is_blank(before),
        is_blank(after),
        t.len() > 0 ==> is_printable_ascii(t[0]) && is_printable_ascii(t.last()),
    ensures
        trim(before + t + after) == t,
{
    let w = Class::White;
    lemma_trim_blank_start(before, t + after);
    assert(before + t + after =~= before + (t + after));
    if t.len() == 0 {
        assert(t + after =~= after);
        lemma_trim_blank_start(after, seq![]);
        assert(after + seq![] =~= after);
        assert(trim_start(Seq::<char>::empty(), w) =~= seq![]);
        assert(trim_end(Seq::<char>::empty(), w) =~= t);
    } else {
        assert((t + after)[0] == t[0]);
        assert(!w.has(t[0]));
        assert(trim_start(t + after, w) == t + after);
        lemma_trim_blank_end(t, after);
        assert(!w.has(t.last()));
    }
}

/// White space at the start goes.
proof fn lemma_trim_blank_start(blank: Seq<char>, s: Seq<char>)
    requires
        is_blank(blank),
    ensures
        trim_start(blank + s, Class::White) == trim_start(s, Class::White),
    decreases blank.len(),
{
    if blank.len() == 0 {
        assert(blank + s =~= s);
    } else {
        let rest = blank.drop_first();
        assert forall|i: int| 0 <= i < rest.len() implies #[trigger] rest[i] == ' ' || rest[i]
            == '\t' || rest[i] == '\n' || rest[i] == '\r' by {
            assert(rest[i] == blank[i + 1]);
        }
        lemma_trim_blank_start(rest, s);
        assert((blank + s)[0] == blank[0]);
        assert((blank + s).drop_first() =~= rest + s);
    }
}

/// White space at the end goes.
proof fn lemma_trim_blank_end(s: Seq<char>, blank: Seq<char>)
    requires
        is_blank(blank),
    ensures
        trim_end(s + blank, Class::White) == trim_end(s, Class::White),
    decreases blank.len(),
{
    if blank.len() == 0 {
        assert(s + blank =~= s);
    } else {
        let rest = blank.drop_last();
        assert forall|i: int| 0 <= i < rest.len() implies #[trigger] rest[i] == ' ' || rest[i]
            == '\t' || rest[i] == '\n' || rest[i] == '\r' by {
            assert(rest[i] == blank[i]);
        }
        lemma_trim_blank_end(s, rest);
        assert((s + blank).last() == blank[blank.len() - 1]);
        assert((s + blank).drop_last() =~= s + rest);
    }
}

/// A text is parted at the first place where the separator stands: what is put together again is
/// the text, and the separator stands nowhere before.
pub proof fn law_split_once(s: Seq<char>, p: Seq<char>)
    requires
        p.len() > 0,
    ensures
        match split_once(s, p) {
            Some((a, b)) => s == a + p + b && forall|i: int|
                0 <= i < a.len() ==> (#[trigger] s.skip(i)).len() < p.len() || s.skip(i).take(
                    p.len() as int,
                ) != p,
            None => forall|a: Seq<char>, b: Seq<char>| s != #[trigger] ((a + p) + b),
        },
{
    lemma_find(s, p, 0);
    match split_once(s, p) {
        Some((a, b)) => {
            assert(s =~= a + p + b);
            assert forall|i: int| 0 <= i < a.len() implies (#[trigger] s.skip(i)).len() < p.len()
                || s.skip(i).take(p.len() as int) != p by {
                if s.skip(i).len() >= p.len() {
                    assert(s.skip(i).take(p.len() as int) =~= s.subrange(i, i + p.len()));
                    assert(!occurs_at(s, p, i));
                }
            }
        },
        None => {
            assert forall|a: Seq<char>, b: Seq<char>| s != #[trigger] ((a + p) + b) by {
                if s == (a + p) + b {
                    assert(s.subrange(a.len() as int, a.len() as int + p.len()) =~= p);
                    assert(occurs_at(s, p, a.len() as int));
                }
            }
        },
    }
}

/// A number is read back from its decimal text.
pub proof fn law_decimal_reads_back(n: nat, max: nat)
    requires
        n <= max,
    ensures
        parse_unsigned(decimal(n), 10, max) == Some(n),
{
    lemma_decimal_value(n);
    lemma_number_text_nonempty(n, 10);
}

/// The decimal text of a number has its value, and begins with a digit.
proof fn lemma_decimal_value(n: nat)
    ensures
        digits_value(decimal(n), 10) == Some(n),
        decimal(n).len() > 0,
        is_digit(decimal(n)[0]),
    decreases n,
{
    let s = decimal(n);
    if n < 10 {
        assert(s.drop_last() =~= seq![]);
        assert(digits_value(s.drop_last(), 10) == Some(0nat));
        assert(s.last() == digit_char(n));
    } else {
        lemma_decimal_value(n / 10);
        assert(s.drop_last() =~= decimal(n / 10));
        assert(s.last() == digit_char(n % 10));
        assert(s[0] == decimal(n / 10)[0]);
    }
}

/// Words that are joined by single spaces are the words of the whole.
pub proof fn law_words_of_joined(list: Seq<Seq<char>>)
    requires
        forall|i: int| 0 <= i < list.len() ==> is_word(#[trigger] list[i]),
    ensures
        words(join(list, seq![' ']), Class::AsciiWhite) == list,
    decreases list.len(),
{
    let w = Class::AsciiWhite;
    if list.len() == 1 {
        assert(is_word(list[0]));
        lemma_word_is_whole(list[0]);
        assert(list =~= seq![list[0]]);
    } else if list.len() > 1 {
        let head = list.drop_last();
        assert forall|i: int| 0 <= i < head.len() implies is_word(#[trigger] head[i]) by {
            assert(head[i] == list[i]);
        }
        law_words_of_joined(head);
        assert(is_word(list[list.len() - 1]));
        let before = join(head, seq![' ']);
        law_words(before, ' ', list.last());
        lemma_word_is_whole(list.last());
        assert(join(list, seq![' ']) =~= before.push(' ') + list.last());
        assert(words(join(list, seq![' ']), w) =~= list);
    } else {
        assert(words(join(list, seq![' ']), w) =~= list);
    }
}

/// The decimal text of a number is made of digits, and is not empty.
pub proof fn law_decimal_is_digits(n: nat)
    ensures
        decimal(n).len() > 0,
        forall|i: int| 0 <= i < decimal(n).len() ==> '0' <= #[trigger] decimal(n)[i] && decimal(n)[i]
            <= '9',
    decreases n,
{
    let s = decimal(n);
    if n >= 10 {
        law_decimal_is_digits(n / 10);
        assert forall|i: int| 0 <= i < s.len() implies '0' <= #[trigger] s[i] && s[i] <= '9' by {
            if i < s.len() - 1 {
                assert(s[i] == decimal(n / 10)[i]);
            } else {
                assert(s[i] == digit_char(n % 10));
            }
        }
    } else {
        assert(s[0] == digit_char(n));
    }
}

/// Whether a text is not empty and made of characters of ASCII that print.
pub open spec fn is_printable_word(s: Seq<char>) -> bool {
    s.len() > 0 && forall|i: int| 0 <= i < s.len() ==> '!' <= #[trigger] s[i] && s[i] <= '~'
}

/// A word is its own only word, and a space, a tab or another such character parts a text in two whose
/// words stand on their own, also where all white space counts.
pub proof fn law_words_at_any_space(a: Seq<char>, c: char, b: Seq<char>)
    requires
        ({
            ||| c == ' ' || c == '\t' || c == '\n' || c == '\u{b}' || c == '\u{c}' || c == '\r'
            ||| c == '\u{85}' || c == '\u{a0}' || c == '\u{1680}'
            ||| '\u{2000}' <= c && c <= '\u{200a}'
            ||| c == '\u{2028}' || c == '\u{2029}' || c == '\u{202f}' || c == '\u{205f}'
            ||| c == '\u{3000}'
        }),
    ensures
        is_printable_word(a) ==> words(a, Class::White) == seq![a],
        words(a.push(c) + b, Class::White) == words(a, Class::White) + words(b, Class::White),
    decreases b.len(),
{
    let w = Class::White;
    if is_printable_word(a) {
        lemma_printable_word_is_whole(a);
    }
    let s = a.push(c) + b;
    if b.len() == 0 {
        assert(s =~= a.push(c));
        assert(s.drop_last() =~= a);
        assert(words(s, w) =~= words(a, w) + words(b, w));
    } else {
        let head = b.drop_last();
        law_words_at_any_space(a, c, head);
        assert(s.drop_last() =~= a.push(c) + head);
        assert(s.last() == b.last());
        if b.len() == 1 {
            assert(s[s.len() - 2] == c);
        } else {
            assert(s[s.len() - 2] == b[b.len() - 2]);
            if !w.has(b[b.len() - 2]) {
                assert(head.last() == b[b.len() - 2]);
                assert(words(head, w).len() > 0);
            }
        }
        assert(words(s, w) =~= words(a, w) + words(b, w));
    }
}

/// A word is its own only word.
proof fn lemma_printable_word_is_whole(a: Seq<char>)
    requires
        is_printable_word(a),
    ensures
        words(a, Class::White) == seq![a],
    decreases a.len(),
{
    let w = Class::White;
    let head = a.drop_last();
    assert(a.last() == a[a.len() - 1]);
    assert(!w.has(a.last()));
    if a.len() == 1 {
        assert(words(head, w) =~= seq![]);
        assert(seq![a.last()] =~= a);
        assert(words(a, w) =~= seq![a]);
    } else {
        assert forall|i: int| 0 <= i < head.len() implies '!' <= #[trigger] head[i] && head[i]
            <= '~' by {
            assert(head[i] == a[i]);
        }
        lemma_printable_word_is_whole(head);
        assert(!w.has(a[a.len() - 2]));
        assert(head.push(a.last()) =~= a);
        assert(words(a, w) =~= seq![a]);
    }
}

/// A number may have one plus sign in front, and no minus sign; what is above the limit, what holds
/// something else than digits, and what holds no digit is no number.
pub proof fn law_numbers(n: nat, max: nat, s: Seq<char>)
    ensures
        n <= max ==> parse_unsigned(seq!['+'] + decimal(n), 10, max) == Some(n),
        n > max ==> parse_unsigned(decimal(n), 10, max) is None,
        parse_unsigned(seq!['-'] + s, 10, max) is None,
        parse_unsigned(seq![], 10, max) is None,
        parse_unsigned(seq!['+'], 10, max) is None,
        s.len() > 0 && !('0' <= s.last() && s.last() <= '9') ==> parse_unsigned(s, 10, max) is None,
        parse_unsigned(seq!['0'] + decimal(n), 10, max) == parse_unsigned(decimal(n), 10, max),
{
    let d = decimal(n);
    lemma_decimal_value(n);
    let plus = seq!['+'] + d;
    assert(plus.drop_first() =~= d);
    let minus = seq!['-'] + s;
    lemma_no_value(minus);
    assert(seq!['+'].drop_first() =~= seq![]);
    if s.len() > 0 && !('0' <= s.last() && s.last() <= '9') {
        let body = if s[0] == '+' {
            s.drop_first()
        } else {
            s
        };
        if body.len() > 0 {
            assert(body.last() == s.last());
            assert(digits_value(body, 10) is None);
        }
    }
    lemma_leading_zero(d);
    assert(d[0] != '+');
}

/// What begins with a minus sign has no value.
proof fn lemma_no_value(s: Seq<char>)
    requires
        s.len() > 0,
        s[0] == '-',
    ensures
        digits_value(s, 10) is None,
    decreases s.len(),
{
    if s.len() > 1 {
        assert(s.drop_last()[0] == '-');
        lemma_no_value(s.drop_last());
    } else {
        assert(s.last() == '-');
    }
}

/// A zero in front does not change a value.
proof fn lemma_leading_zero(s: Seq<char>)
    ensures
        digits_value(seq!['0'] + s, 10) == digits_value(s, 10),
    decreases s.len(),
{
    let t = seq!['0'] + s;
    if s.len() == 0 {
        assert(t.drop_last() =~= seq![]);
        assert(t.last() == '0');
        assert(digits_value(t.drop_last(), 10) == Some(0nat));
    } else {
        lemma_leading_zero(s.drop_last());
        assert(t.drop_last() =~= seq!['0'] + s.drop_last());
        assert(t.last() == s.last());
    }
}

} // verus!
