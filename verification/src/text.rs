//! Character-level helpers shared by the parsers and the renderers.
//!
//! Text is viewed as a sequence of `char`s. The functions here scan such a
//! sequence by position, so that the grammars built on top of them can be
//! stated without slicing.

use vstd::prelude::*;
use vstd::std_specs::iter::IteratorSpec;
use vstd::string::StrSliceExecFns;
use vstd::string::StringExecFns;

verus! {

/// The characters of `s`, in order.
pub fn chars_of(s: &str) -> (v: Vec<char>)
    ensures
        v@ == s@,
{
    broadcast use vstd::string::group_string_axioms;

    let mut v: Vec<char> = Vec::new();
    for c in it: s.chars()
        invariant
            v@ == it.history(),
            it.seq() == s@,
    {
        v.push(c);
    }
    assert(v@ =~= s@);
    v
}

/// A piece of text together with its characters, indexable by position.
pub struct Text<'a> {
    source: &'a str,
    chars: Vec<char>,
}

impl<'a> View for Text<'a> {
    type V = Seq<char>;

    closed spec fn view(&self) -> Seq<char> {
        self.chars@
    }
}

impl<'a> Text<'a> {
    #[verifier::type_invariant]
    spec fn consistent(self) -> bool {
        self.chars@ == self.source@
    }

    /// Indexes the characters of `source`.
    pub fn new(source: &'a str) -> (t: Self)
        ensures
            t@ == source@,
    {
        let chars = chars_of(source);
        Text { source, chars }
    }

    /// Number of characters.
    pub fn len(&self) -> (n: usize)
        ensures
            n == self@.len(),
    {
        self.chars.len()
    }

    /// The character at position `i`.
    pub fn at(&self, i: usize) -> (c: char)
        requires
            i < self@.len(),
        ensures
            c == self@[i as int],
    {
        self.chars[i]
    }

    /// The characters from `from` up to, not including, `to`, as a new string.
    pub fn slice(&self, from: usize, to: usize) -> (s: String)
        requires
            from <= to <= self@.len(),
        ensures
            s@ == self@.subrange(from as int, to as int),
    {
        proof {
            use_type_invariant(self);
        }
        self.source.substring_char(from, to).to_owned()
    }

    /// The part of the source text that starts at position `from`.
    pub fn rest(&self, from: usize) -> (s: &'a str)
        requires
            from <= self@.len(),
        ensures
            s@ == self@.subrange(from as int, self@.len() as int),
    {
        proof {
            use_type_invariant(self);
        }
        self.source.substring_char(from, self.chars.len())
    }
}

/// Whether two pieces of text hold the same characters.
pub fn same_text(a: &str, b: &str) -> (r: bool)
    ensures
        r == (a@ == b@),
{
    let x = a.to_owned();
    let y = b.to_owned();
    x == y
}


/// Whether `c` is alphanumeric in the sense of Unicode, as `char::is_alphanumeric`
/// decides it.
pub uninterp spec fn is_alphanumeric(c: char) -> bool;

/// `char::is_alphanumeric` of the standard library: its answer depends on the
/// character alone and is the one that [`is_alphanumeric`] names.
pub assume_specification[ char::is_alphanumeric ](c: char) -> (b: bool)
    ensures
        b == is_alphanumeric(c),
;

/// The blanks that may surround a token: space, tab, carriage return, line feed.
pub open spec fn is_space(c: char) -> bool {
    c == ' ' || c == '\t' || c == '\r' || c == '\n'
}

/// A decimal digit, `0` to `9`.
pub open spec fn is_digit(c: char) -> bool {
    '0' <= c && c <= '9'
}

/// A letter or digit of ASCII.
pub open spec fn is_ascii_alnum(c: char) -> bool {
    ('a' <= c && c <= 'z') || ('A' <= c && c <= 'Z') || is_digit(c)
}

/// The sets of characters that tokens are made of.
#[derive(Debug, Clone, Copy, PartialEq, Eq, Structural)]
pub enum CharClass {
    /// Blanks.
    Space,
    /// Decimal digits.
    Digit,
    /// Alphanumerics, `_`, `-` and `.`: names of parameters, captures, hosts.
    Label,
    /// What a label has, and `/`: names of units, which are paths.
    PathLabel,
    /// ASCII letters and digits, `_` and `-`: names and fields of emit headers.
    HeaderLabel,
    /// Anything but a blank or a comma: an unquoted value.
    Bare,
    /// Anything but the one character given.
    Except(char),
    /// Anything but a line feed or the character that starts a header: what
    /// a line of plain output is made of.
    Line,
}

impl CharClass {
    /// Whether `c` belongs to the class.
    pub open spec fn has(self, c: char) -> bool {
        match self {
            CharClass::Space => is_space(c),
            CharClass::Digit => is_digit(c),
            CharClass::Label => is_alphanumeric(c) || c == '_' || c == '-' || c == '.',
            CharClass::PathLabel => is_alphanumeric(c) || c == '_' || c == '-' || c == '.' || c
                == '/',
            CharClass::HeaderLabel => is_ascii_alnum(c) || c == '_' || c == '-',
            CharClass::Bare => c != ' ' && c != '\t' && c != '\n' && c != ',',
            CharClass::Except(other) => c != other,
            CharClass::Line => c != '\n' && c != '\x01',
        }
    }

    /// Whether `c` belongs to the class.
    pub fn contains(self, c: char) -> (r: bool)
        ensures
            r == self.has(c),
    {
        match self {
            CharClass::Space => c == ' ' || c == '\t' || c == '\r' || c == '\n',
            CharClass::Digit => '0' <= c && c <= '9',
            CharClass::Label => c.is_alphanumeric() || c == '_' || c == '-' || c == '.',
            CharClass::PathLabel => c.is_alphanumeric() || c == '_' || c == '-' || c == '.' || c
                == '/',
            CharClass::HeaderLabel => ('a' <= c && c <= 'z') || ('A' <= c && c <= 'Z') || ('0' <= c
                && c <= '9') || c == '_' || c == '-',
            CharClass::Bare => c != ' ' && c != '\t' && c != '\n' && c != ',',
            CharClass::Except(other) => c != other,
            CharClass::Line => c != '\n' && c != '\x01',
        }
    }
}

/// The end of the longest run of characters of `class` that starts at `i`.
pub open spec fn span(s: Seq<char>, i: int, class: CharClass) -> int
    decreases s.len() - i,
{
    if 0 <= i < s.len() && class.has(s[i]) {
        span(s, i + 1, class)
    } else {
        i
    }
}

/// The first position at or after `i` that holds no blank.
pub open spec fn skip_ws(s: Seq<char>, i: int) -> int {
    span(s, i, CharClass::Space)
}

/// A run ends no earlier than it starts, inside the text, on a character that
/// is not of the class; everything before that is.
pub proof fn lemma_span(s: Seq<char>, i: int, class: CharClass)
    requires
        0 <= i <= s.len(),
    ensures
        i <= span(s, i, class) <= s.len(),
        span(s, i, class) < s.len() ==> !class.has(s[span(s, i, class)]),
        forall|k: int| i <= k < span(s, i, class) ==> class.has(#[trigger] s[k]),
    decreases s.len() - i,
{
    if i < s.len() && class.has(s[i]) {
        lemma_span(s, i + 1, class);
    }
}

/// A position that ends a run of the class from `i` is where [`span`] ends.
pub proof fn lemma_span_is(s: Seq<char>, i: int, j: int, class: CharClass)
    requires
        0 <= i <= j <= s.len(),
        forall|k: int| i <= k < j ==> class.has(#[trigger] s[k]),
        j < s.len() ==> !class.has(s[j]),
    ensures
        span(s, i, class) == j,
    decreases j - i,
{
    if i < j {
        assert(class.has(s[i]));
        lemma_span_is(s, i + 1, j, class);
    }
}

/// The end of the run of `class` that starts at `i`.
pub fn scan(t: &Text, i: usize, class: CharClass) -> (j: usize)
    requires
        i <= t@.len(),
    ensures
        j == span(t@, i as int, class),
        i <= j <= t@.len(),
{
    let n = t.len();
    let mut j = i;
    while j < n && class.contains(t.at(j))
        invariant
            i <= j <= n,
            n == t@.len(),
            span(t@, i as int, class) == span(t@, j as int, class),
        decreases n - j,
    {
        j = j + 1;
    }
    j
}

/// Whether the characters of `tag` stand in `s` from position `i` on.
pub open spec fn has_tag(s: Seq<char>, i: int, tag: Seq<char>) -> bool {
    0 <= i && i + tag.len() <= s.len() && s.subrange(i, i + tag.len()) == tag
}

/// Whether `tag` stands in the text from position `i` on.
pub fn tag_at(t: &Text, i: usize, tag: &str) -> (r: bool)
    requires
        i <= t@.len(),
    ensures
        r == has_tag(t@, i as int, tag@),
{
    let pattern = chars_of(tag);
    let m = pattern.len();
    let n = t.len();
    if n - i < m {
        return false;
    }
    let mut k: usize = 0;
    while k < m
        invariant
            0 <= k <= m,
            m == pattern@.len(),
            pattern@ == tag@,
            n == t@.len(),
            i + m <= n,
            forall|x: int| 0 <= x < k ==> t@[i + x] == pattern@[x],
        decreases m - k,
    {
        if t.at(i + k) != pattern[k] {
            assert(t@.subrange(i as int, i + m)[k as int] != pattern@[k as int]);
            return false;
        }
        k = k + 1;
    }
    assert(t@.subrange(i as int, i + m) =~= pattern@);
    true
}

/// Whether a single character `c` stands at position `i`.
pub open spec fn has_char(s: Seq<char>, i: int, c: char) -> bool {
    0 <= i < s.len() && s[i] == c
}

/// Whether `c` stands in the text at position `i`.
pub fn char_at(t: &Text, i: usize, c: char) -> (r: bool)
    ensures
        r == has_char(t@, i as int, c),
{
    i < t.len() && t.at(i) == c
}


/// The number that a decimal digit stands for.
pub open spec fn digit_of(c: char) -> int {
    c as int - '0' as int
}

/// The number that a run of decimal digits spells; 0 for the empty run.
pub open spec fn number(s: Seq<char>) -> nat
    decreases s.len(),
{
    if s.len() == 0 {
        0
    } else {
        (number(s.drop_last()) * 10 + digit_of(s.last())) as nat
    }
}

/// Whether every character of `s` is a decimal digit.
pub open spec fn all_digits(s: Seq<char>) -> bool {
    forall|k: int| 0 <= k < s.len() ==> is_digit(#[trigger] s[k])
}

/// A run of digits spells at least what any of its prefixes spells.
pub proof fn lemma_number_grows(s: Seq<char>, k: int)
    requires
        all_digits(s),
        0 <= k <= s.len(),
    ensures
        number(s.take(k)) <= number(s),
    decreases s.len() - k,
{
    if k < s.len() {
        let longer = s.take(k + 1);
        assert(longer.drop_last() =~= s.take(k));
        assert(is_digit(s[k]));
        assert(longer.last() == s[k]);
        lemma_number_grows(s, k + 1);
    } else {
        assert(s.take(k) =~= s);
    }
}

/// The number spelled by the digits of `t` between `from` and `to`, unless it
/// exceeds `max`.
pub fn read_number(t: &Text, from: usize, to: usize, max: u32) -> (r: Option<u32>)
    requires
        from <= to <= t@.len(),
        all_digits(t@.subrange(from as int, to as int)),
    ensures
        r == if number(t@.subrange(from as int, to as int)) <= max {
            Some(number(t@.subrange(from as int, to as int)) as u32)
        } else {
            None
        },
{
    let ghost digits = t@.subrange(from as int, to as int);
    let mut acc: u64 = 0;
    let mut k: usize = from;
    assert(digits.take(0) =~= Seq::<char>::empty());
    while k < to
        invariant
            from <= k <= to <= t@.len(),
            digits == t@.subrange(from as int, to as int),
            all_digits(digits),
            acc == number(digits.take(k - from)),
            acc <= max,
        decreases to - k,
    {
        let c = t.at(k);
        assert(c == digits[k - from]);
        assert(is_digit(digits[k - from]));
        let d: u64 = (c as u32 - '0' as u32) as u64;
        proof {
            let longer = digits.take(k - from + 1);
            assert(longer.drop_last() =~= digits.take(k - from));
            assert(longer.last() == c);
        }
        acc = acc * 10 + d;
        if acc > max as u64 {
            proof {
                lemma_number_grows(digits, k - from + 1);
            }
            return None;
        }
        k = k + 1;
    }
    assert(digits.take(to - from) =~= digits);
    Some(acc as u32)
}

/// The end of the run of digits that starts at `i`.
pub fn scan_digits(t: &Text, i: usize) -> (j: usize)
    requires
        i <= t@.len(),
    ensures
        j == span(t@, i as int, CharClass::Digit),
        i <= j <= t@.len(),
        all_digits(t@.subrange(i as int, j as int)),
{
    let j = scan(t, i, CharClass::Digit);
    proof {
        lemma_span(t@, i as int, CharClass::Digit);
        let digits = t@.subrange(i as int, j as int);
        assert forall|k: int| 0 <= k < digits.len() implies is_digit(#[trigger] digits[k]) by {
            assert(CharClass::Digit.has(t@[i + k]));
        }
    }
    j
}

/// The character that spells the digit `d`.
pub open spec fn digit_char(d: int) -> char {
    if d == 0 {
        '0'
    } else if d == 1 {
        '1'
    } else if d == 2 {
        '2'
    } else if d == 3 {
        '3'
    } else if d == 4 {
        '4'
    } else if d == 5 {
        '5'
    } else if d == 6 {
        '6'
    } else if d == 7 {
        '7'
    } else if d == 8 {
        '8'
    } else {
        '9'
    }
}

/// The decimal spelling of `n`, without leading zeros.
pub open spec fn decimal(n: nat) -> Seq<char>
    decreases n,
{
    if n < 10 {
        seq![digit_char(n as int)]
    } else {
        decimal(n / 10).push(digit_char((n % 10) as int))
    }
}

/// The decimal spelling of `i`, with a leading `-` when it is negative.
pub open spec fn signed_decimal(i: int) -> Seq<char> {
    if i < 0 {
        seq!['-'] + decimal((-i) as nat)
    } else {
        decimal(i as nat)
    }
}

fn push_digit(out: &mut String, d: u8)
    requires
        d < 10,
    ensures
        final(out)@ == old(out)@.push(digit_char(d as int)),
{
    proof {
        reveal_strlit("0");
        reveal_strlit("1");
        reveal_strlit("2");
        reveal_strlit("3");
        reveal_strlit("4");
        reveal_strlit("5");
        reveal_strlit("6");
        reveal_strlit("7");
        reveal_strlit("8");
        reveal_strlit("9");
    }
    let piece: &str = if d == 0 {
        "0"
    } else if d == 1 {
        "1"
    } else if d == 2 {
        "2"
    } else if d == 3 {
        "3"
    } else if d == 4 {
        "4"
    } else if d == 5 {
        "5"
    } else if d == 6 {
        "6"
    } else if d == 7 {
        "7"
    } else if d == 8 {
        "8"
    } else {
        "9"
    };
    assert(piece@ =~= seq![digit_char(d as int)]);
    out.append(piece);
    assert(final(out)@ =~= old(out)@.push(digit_char(d as int)));
}

/// Appends the decimal spelling of `n` to `out`.
pub fn push_decimal(out: &mut String, n: u64)
    ensures
        final(out)@ == old(out)@ + decimal(n as nat),
    decreases n,
{
    if n >= 10 {
        push_decimal(out, n / 10);
    }
    push_digit(out, (n % 10) as u8);
    assert(final(out)@ =~= old(out)@ + decimal(n as nat));
}

/// Appends the decimal spelling of `i` to `out`.
pub fn push_signed_decimal(out: &mut String, i: i32)
    ensures
        final(out)@ == old(out)@ + signed_decimal(i as int),
{
    if i < 0 {
        proof {
            reveal_strlit("-");
        }
        out.append("-");
        assert(out@ =~= old(out)@ + seq!['-']);
        let magnitude: u64 = (-(i as i64)) as u64;
        push_decimal(out, magnitude);
        assert(final(out)@ =~= old(out)@ + signed_decimal(i as int));
    } else {
        push_decimal(out, i as u64);
    }
}


/// Dictionary order on texts: by the first character in which they differ, and
/// a proper prefix before the longer text.
pub open spec fn text_lt(a: Seq<char>, b: Seq<char>) -> bool
    decreases a.len(),
{
    if b.len() == 0 {
        false
    } else if a.len() == 0 {
        true
    } else if a[0] != b[0] {
        a[0] < b[0]
    } else {
        text_lt(a.drop_first(), b.drop_first())
    }
}

/// No text comes before itself.
pub proof fn lemma_lt_irreflexive(a: Seq<char>)
    ensures
        !text_lt(a, a),
    decreases a.len(),
{
    if a.len() > 0 {
        lemma_lt_irreflexive(a.drop_first());
    }
}

/// Of two different texts one comes before the other.
pub proof fn lemma_lt_total(a: Seq<char>, b: Seq<char>)
    ensures
        a == b || text_lt(a, b) || text_lt(b, a),
    decreases a.len(),
{
    if a.len() == 0 || b.len() == 0 {
        if a.len() == 0 && b.len() == 0 {
            assert(a =~= b);
        }
    } else if a[0] == b[0] {
        lemma_lt_total(a.drop_first(), b.drop_first());
        if a.drop_first() == b.drop_first() {
            assert(a =~= seq![a[0]] + a.drop_first());
            assert(b =~= seq![b[0]] + b.drop_first());
        }
    }
}

/// Two texts never come before each other.
pub proof fn lemma_lt_asymmetric(a: Seq<char>, b: Seq<char>)
    ensures
        !(text_lt(a, b) && text_lt(b, a)),
    decreases a.len(),
{
    if a.len() > 0 && b.len() > 0 && a[0] == b[0] {
        lemma_lt_asymmetric(a.drop_first(), b.drop_first());
    }
}

/// What comes before a text comes before all that the text comes before.
pub proof fn lemma_lt_transitive(a: Seq<char>, b: Seq<char>, c: Seq<char>)
    requires
        text_lt(a, b),
        text_lt(b, c),
    ensures
        text_lt(a, c),
    decreases a.len(),
{
    if a.len() > 0 && b.len() > 0 && c.len() > 0 && a[0] == b[0] && b[0] == c[0] {
        lemma_lt_transitive(a.drop_first(), b.drop_first(), c.drop_first());
    }
}

/// Where one text stands relative to another in dictionary order.
#[derive(Debug, Clone, Copy, PartialEq, Eq, Structural)]
pub enum Rank {
    Before,
    Same,
    After,
}

/// Where `a` stands relative to `b`.
pub open spec fn rank(a: Seq<char>, b: Seq<char>) -> Rank {
    if text_lt(a, b) {
        Rank::Before
    } else if a == b {
        Rank::Same
    } else {
        Rank::After
    }
}

proof fn lemma_lt_skip(a: Seq<char>, b: Seq<char>, k: int)
    requires
        0 <= k <= a.len(),
        k <= b.len(),
        a.take(k) == b.take(k),
    ensures
        text_lt(a, b) == text_lt(a.skip(k), b.skip(k)),
        text_lt(b, a) == text_lt(b.skip(k), a.skip(k)),
    decreases k,
{
    if k == 0 {
        assert(a.skip(0) =~= a);
        assert(b.skip(0) =~= b);
    } else {
        assert(a.take(k)[0] == a[0]);
        assert(b.take(k)[0] == b[0]);
        assert(a[0] == b[0]);
        assert(text_lt(a, b) == text_lt(a.drop_first(), b.drop_first()));
        assert(text_lt(b, a) == text_lt(b.drop_first(), a.drop_first()));
        assert(a.drop_first().take(k - 1) =~= a.take(k).drop_first());
        assert(b.drop_first().take(k - 1) =~= b.take(k).drop_first());
        lemma_lt_skip(a.drop_first(), b.drop_first(), k - 1);
        assert(a.drop_first().skip(k - 1) =~= a.skip(k));
        assert(b.drop_first().skip(k - 1) =~= b.skip(k));
    }
}

/// Compares two texts in dictionary order.
pub fn compare_text(a: &str, b: &str) -> (r: Rank)
    ensures
        r == rank(a@, b@),
{
    let x = chars_of(a);
    let y = chars_of(b);
    let n = x.len();
    let m = y.len();
    let mut k: usize = 0;
    assert(x@.take(0) =~= y@.take(0));
    while k < n && k < m
        invariant
            0 <= k <= n,
            k <= m,
            n == x@.len(),
            m == y@.len(),
            x@ == a@,
            y@ == b@,
            x@.take(k as int) == y@.take(k as int),
        decreases n - k,
    {
        proof {
            lemma_lt_skip(x@, y@, k as int);
        }
        if x[k] != y[k] {
            assert(x@.skip(k as int)[0] == x@[k as int]);
            assert(y@.skip(k as int)[0] == y@[k as int]);
            assert(text_lt(x@.skip(k as int), y@.skip(k as int)) == (x@[k as int] < y@[k as int]));
            assert(x@ != y@);
            if x[k] < y[k] {
                return Rank::Before;
            } else {
                return Rank::After;
            }
        }
        assert(x@.take(k + 1) =~= x@.take(k as int).push(x@[k as int]));
        assert(y@.take(k + 1) =~= y@.take(k as int).push(y@[k as int]));
        k = k + 1;
    }
    proof {
        lemma_lt_skip(x@, y@, k as int);
    }
    if k < m {
        assert(x@.skip(k as int).len() == 0);
        Rank::Before
    } else if k < n {
        assert(y@.skip(k as int).len() == 0);
        assert(x@ != y@);
        Rank::After
    } else {
        assert(x@.take(k as int) =~= x@);
        assert(y@.take(k as int) =~= y@);
        assert(x@.skip(k as int).len() == 0);
        Rank::Same
    }
}

} // verus!
