//! Characters and scanning: the lexical layer under the parameter grammar.
use vstd::prelude::*;
use vstd::string::*;

verus! {

/// The four characters that may pad an argument on either side.
pub open spec fn is_blank(c: char) -> bool {
    c == ' ' || c == '\t' || c == '\r' || c == '\n'
}

/// Unicode's `White_Space` property, the separator between words.
pub open spec fn is_whitespace(c: char) -> bool {
    let n = c as u32;
    ||| 0x09 <= n <= 0x0D
    ||| n == 0x20
    ||| n == 0x85
    ||| n == 0xA0
    ||| n == 0x1680
    ||| 0x2000 <= n <= 0x200A
    ||| n == 0x2028
    ||| n == 0x2029
    ||| n == 0x202F
    ||| n == 0x205F
    ||| n == 0x3000
}

/// The ten ASCII digits.
pub open spec fn is_digit(c: char) -> bool {
    '0' <= c <= '9'
}

/// The value of an ASCII digit.
pub open spec fn digit_value(c: char) -> nat {
    (c as u32 - '0' as u32) as nat
}

/// A set of characters that a scan can run over.
#[derive(Clone, Copy, Debug, PartialEq, Eq, Structural)]
pub enum CharClass {
    /// Space, tab, carriage return, line feed.
    Blank,
    /// Unicode white space.
    Whitespace,
    /// An ASCII digit.
    Digit,
    /// Anything but Unicode white space.
    Word,
    /// Anything but a double quote.
    Unquoted,
}

impl CharClass {
    /// Whether `c` belongs to the class.
    pub open spec fn holds(self, c: char) -> bool {
        match self {
            CharClass::Blank => is_blank(c),
            CharClass::Whitespace => is_whitespace(c),
            CharClass::Digit => is_digit(c),
            CharClass::Word => !is_whitespace(c),
            CharClass::Unquoted => c != '"',
        }
    }

    /// Tests one character against the class.
    pub fn test(self, c: char) -> (b: bool)
        ensures
            b == self.holds(c),
    {
        match self {
            CharClass::Blank => c == ' ' || c == '\t' || c == '\r' || c == '\n',
            CharClass::Whitespace => char_is_whitespace(c),
            CharClass::Digit => '0' <= c && c <= '9',
            CharClass::Word => !char_is_whitespace(c),
            CharClass::Unquoted => c != '"',
        }
    }
}

/// Tests a character for Unicode white space.
pub fn char_is_whitespace(c: char) -> (b: bool)
    ensures
        b == is_whitespace(c),
{
    let n: u32 = c as u32;
    (0x09 <= n && n <= 0x0D) || n == 0x20 || n == 0x85 || n == 0xA0 || n == 0x1680 || (0x2000 <= n
        && n <= 0x200A) || n == 0x2028 || n == 0x2029 || n == 0x202F || n == 0x205F || n == 0x3000
}

/// The length of the longest prefix of `s` that lies within `class`.
pub open spec fn run_len(s: Seq<char>, class: CharClass) -> nat
    decreases s.len(),
{
    if s.len() > 0 && class.holds(s[0]) {
        1 + run_len(s.skip(1), class)
    } else {
        0
    }
}

/// `s` without its longest prefix within `class`.
pub open spec fn after_run(s: Seq<char>, class: CharClass) -> Seq<char> {
    s.skip(run_len(s, class) as int)
}

/// A run is pinned down by where it stops: every character before `k` is in
/// the class and the one at `k`, if any, is not.
pub proof fn lemma_run_len(s: Seq<char>, class: CharClass, k: int)
    requires
        0 <= k <= s.len(),
        forall|i: int| 0 <= i < k ==> class.holds(#[trigger] s[i]),
        k < s.len() ==> !class.holds(s[k]),
    ensures
        run_len(s, class) == k,
    decreases s.len(),
{
    if k > 0 {
        let t = s.skip(1);
        assert forall|i: int| 0 <= i < k - 1 implies class.holds(#[trigger] t[i]) by {
            assert(t[i] == s[i + 1]);
        }
        lemma_run_len(t, class, k - 1);
    }
}

/// A run never leaves the sequence, holds only members of the class, and
/// cannot be extended.
pub proof fn lemma_run_len_bounds(s: Seq<char>, class: CharClass)
    ensures
        run_len(s, class) <= s.len(),
        forall|i: int| 0 <= i < run_len(s, class) ==> class.holds(#[trigger] s[i]),
        run_len(s, class) < s.len() ==> !class.holds(s[run_len(s, class) as int]),
    decreases s.len(),
{
    if s.len() > 0 && class.holds(s[0]) {
        let t = s.skip(1);
        lemma_run_len_bounds(t, class);
        assert forall|i: int| 0 <= i < run_len(s, class) implies class.holds(#[trigger] s[i]) by {
            if i > 0 {
                assert(s[i] == t[i - 1]);
            }
        }
        if run_len(s, class) < s.len() {
            assert(s[run_len(s, class) as int] == t[run_len(t, class) as int]);
        }
    }
}

/// `rest` is what is left of `input` once some of its front is taken.
pub open spec fn is_rest_of(rest: Seq<char>, input: Seq<char>) -> bool {
    exists|k: int| 0 <= k <= input.len() && rest == #[trigger] input.skip(k)
}

/// What is left of what is left is left of the whole.
pub proof fn lemma_rest_of_rest(a: Seq<char>, b: Seq<char>, c: Seq<char>)
    requires
        is_rest_of(a, b),
        is_rest_of(b, c),
    ensures
        is_rest_of(a, c),
{
    let i = choose|k: int| 0 <= k <= b.len() && a == #[trigger] b.skip(k);
    let j = choose|k: int| 0 <= k <= c.len() && b == #[trigger] c.skip(k);
    assert(c.skip(j).skip(i) == c.skip(i + j));
}

/// What follows a run is left of the sequence.
pub proof fn lemma_after_run_is_rest(s: Seq<char>, class: CharClass)
    ensures
        is_rest_of(after_run(s, class), s),
{
    lemma_run_len_bounds(s, class);
    assert(after_run(s, class) == s.skip(run_len(s, class) as int));
}

/// The characters of a string, in order.
pub fn chars_of(s: &str) -> (v: Vec<char>)
    ensures
        v@ == s@,
{
    let mut v: Vec<char> = Vec::new();
    for c in it: s.chars()
        invariant
            v@ == s@.take(it.index() as int),
            it.seq() == s@,
    {
        v.push(c);
    }
    v
}

/// Runs over `chars` from `start` while the characters lie within `class`,
/// and returns where the run stops.
pub(crate) fn scan(chars: &Vec<char>, start: usize, class: CharClass) -> (end: usize)
    requires
        start <= chars@.len(),
    ensures
        start <= end <= chars@.len(),
        end - start == run_len(chars@.skip(start as int), class),
{
    let mut i: usize = start;
    while i < chars.len() && class.test(chars[i])
        invariant
            start <= i <= chars@.len(),
            forall|j: int| start <= j < i ==> class.holds(#[trigger] chars@[j]),
        decreases chars@.len() - i,
    {
        i += 1;
    }
    proof {
        let t = chars@.skip(start as int);
        assert forall|j: int| 0 <= j < i - start implies class.holds(#[trigger] t[j]) by {
            assert(t[j] == chars@[start + j]);
        }
        lemma_run_len(t, class, i - start);
    }
    i
}

/// The number that a sequence of ASCII digits writes in base ten.
pub open spec fn digits_value(s: Seq<char>) -> nat
    decreases s.len(),
{
    if s.len() == 0 {
        0
    } else {
        10 * digits_value(s.drop_last()) + digit_value(s.last())
    }
}

/// Reading more digits never gives a smaller number.
pub proof fn lemma_digits_value_monotone(s: Seq<char>, k: int)
    requires
        0 <= k <= s.len(),
    ensures
        digits_value(s.take(k)) <= digits_value(s),
    decreases s.len(),
{
    if k == s.len() {
        assert(s.take(k) == s);
    } else {
        assert(s.drop_last().take(k) == s.take(k));
        lemma_digits_value_monotone(s.drop_last(), k);
    }
}

/// Reads the digits of `chars` between `start` and `end` as a number, unless
/// it is larger than `limit`.
pub(crate) fn read_digits(chars: &Vec<char>, start: usize, end: usize, limit: u64) -> (r: Option<u64>)
    requires
        start <= end <= chars@.len(),
        forall|j: int| start <= j < end ==> is_digit(#[trigger] chars@[j]),
    ensures
        r == if digits_value(chars@.subrange(start as int, end as int)) <= limit {
            Some(digits_value(chars@.subrange(start as int, end as int)) as u64)
        } else {
            None
        },
{
    let ghost digits = chars@.subrange(start as int, end as int);
    let mut acc: u64 = 0;
    let mut i: usize = start;
    while i < end
        invariant
            start <= i <= end <= chars@.len(),
            forall|j: int| start <= j < end ==> is_digit(#[trigger] chars@[j]),
            digits == chars@.subrange(start as int, end as int),
            acc == digits_value(digits.take(i - start)),
            acc <= limit,
        decreases end - i,
    {
        let c = chars[i];
        let d: u128 = (c as u32 - '0' as u32) as u128;
        let next: u128 = (acc as u128) * 10 + d;
        proof {
            let longer = digits.take(i - start + 1);
            assert(longer.drop_last() == digits.take(i - start));
            assert(longer.last() == chars@[i as int]);
            assert(next == digits_value(longer));
            lemma_digits_value_monotone(digits, i - start + 1);
        }
        if next > limit as u128 {
            return None;
        }
        acc = next as u64;
        i += 1;
    }
    proof {
        assert(digits.take(end - start) == digits);
    }
    Some(acc)
}

/// Whether a line holds nothing but white space.
pub open spec fn is_blank_line(s: Seq<char>) -> bool {
    run_len(s, CharClass::Whitespace) == s.len()
}

/// The first word of a line and what follows the white space character that
/// ends it; nothing where the line is blank. A line that starts with white
/// space has the empty word first.
pub open spec fn first_word(s: Seq<char>) -> Option<(Seq<char>, Seq<char>)> {
    let k = run_len(s, CharClass::Word) as int;
    if is_blank_line(s) {
        None
    } else if k < s.len() {
        Some((s.take(k), s.skip(k + 1)))
    } else {
        Some((s, Seq::empty()))
    }
}

/// Splits a line into its first word and the rest.
pub fn next_word(s: &str) -> (r: Option<(&str, &str)>)
    ensures
        match first_word(s@) {
            Some((word, rest)) => r matches Some((w, t)) && w@ == word && t@ == rest,
            None => r is None,
        },
{
    let chars = chars_of(s);
    let n = chars.len();
    assert(chars@.skip(0) == chars@);
    if scan(&chars, 0, CharClass::Whitespace) == n {
        return None;
    }
    let k = scan(&chars, 0, CharClass::Word);
    if k < n {
        Some((s.substring_char(0, k), s.substring_char(k + 1, n)))
    } else {
        assert(s@.subrange(0, n as int) == s@);
        Some((s.substring_char(0, n), s.substring_char(n, n)))
    }
}

/// `s` without the prefix `prefix`, where it starts with it.
pub open spec fn without_prefix(s: Seq<char>, prefix: Seq<char>) -> Option<Seq<char>> {
    if prefix.is_prefix_of(s) {
        Some(s.skip(prefix.len() as int))
    } else {
        None
    }
}

/// Takes `prefix` off the front of `s`.
pub fn strip_prefix<'a>(s: &'a str, prefix: &str) -> (r: Option<&'a str>)
    ensures
        match without_prefix(s@, prefix@) {
            Some(rest) => r matches Some(t) && t@ == rest,
            None => r is None,
        },
{
    let text = chars_of(s);
    let head = chars_of(prefix);
    if head.len() > text.len() {
        return None;
    }
    let mut i: usize = 0;
    while i < head.len()
        invariant
            i <= head@.len() <= text@.len(),
            head@ == prefix@,
            text@ == s@,
            forall|j: int| 0 <= j < i ==> head@[j] == text@[j],
        decreases head@.len() - i,
    {
        if head[i] != text[i] {
            assert(text@.subrange(0, head@.len() as int)[i as int] == text@[i as int]);
            return None;
        }
        i += 1;
    }
    assert(head@ =~= text@.subrange(0, head@.len() as int));
    Some(s.substring_char(head.len(), text.len()))
}

/// Two pieces of text, one after the other.
pub fn str_concat(l: &str, r: &str) -> (out: String)
    ensures
        out@ == l@ + r@,
{
    String::from_str(l).concat(r)
}

/// The pieces of `parts` in order, with `sep` between neighbours.
pub open spec fn joined(parts: Seq<Seq<char>>, sep: Seq<char>) -> Seq<char>
    decreases parts.len(),
{
    if parts.len() == 0 {
        Seq::empty()
    } else if parts.len() == 1 {
        parts[0]
    } else {
        joined(parts.drop_last(), sep) + sep + parts.last()
    }
}

/// The views of a list of string slices.
pub open spec fn views(parts: Seq<&str>) -> Seq<Seq<char>> {
    Seq::new(parts.len(), |i: int| parts[i]@)
}

/// Joins `parts` with `sep` between neighbours.
pub fn join(parts: &Vec<&str>, sep: &str) -> (out: String)
    ensures
        out@ == joined(views(parts@), sep@),
{
    let mut out = String::new();
    let mut i: usize = 0;
    while i < parts.len()
        invariant
            i <= parts@.len(),
            out@ == joined(views(parts@).take(i as int), sep@),
        decreases parts@.len() - i,
    {
        proof {
            let longer = views(parts@).take(i + 1);
            assert(longer.drop_last() == views(parts@).take(i as int));
            assert(longer.last() == parts@[i as int]@);
            if i == 0 {
                assert(out@ + parts@[0]@ == parts@[0]@);
            }
        }
        if i > 0 {
            out.append(sep);
        }
        out.append(parts[i]);
        i += 1;
    }
    proof {
        assert(views(parts@).take(parts@.len() as int) == views(parts@));
    }
    out
}

/// `word` stands in `text` at the place `i`.
pub open spec fn occurs_at(word: Seq<char>, text: Seq<char>, i: int) -> bool {
    0 <= i && i + word.len() <= text.len() && text.subrange(i, i + word.len()) == word
}

/// `word` stands somewhere in `text`.
pub open spec fn occurs_in(word: Seq<char>, text: Seq<char>) -> bool {
    exists|i: int| occurs_at(word, text, i)
}

/// Whether `word` stands somewhere in `text`.
pub fn contains(text: &str, word: &str) -> (b: bool)
    ensures
        b == occurs_in(word@, text@),
{
    let t = chars_of(text);
    let w = chars_of(word);
    if w.len() > t.len() {
        return false;
    }
    let last = t.len() - w.len();
    let mut i: usize = 0;
    while i <= last
        invariant
            t@ == text@,
            w@ == word@,
            last + w@.len() == t@.len(),
            t@.len() <= usize::MAX,
            i <= last + 1,
            forall|j: int| 0 <= j < i ==> !occurs_at(w@, t@, j),
        decreases last + 1 - i,
    {
        let mut k: usize = 0;
        while k < w.len() && t[i + k] == w[k]
            invariant
                k <= w@.len(),
                i + w@.len() <= t@.len(),
                t@.len() <= usize::MAX,
                forall|m: int| 0 <= m < k ==> t@[i + m] == w@[m],
            decreases w@.len() - k,
        {
            k += 1;
        }
        if k == w.len() {
            assert(t@.subrange(i as int, i + w@.len()) =~= w@);
            assert(occurs_at(w@, t@, i as int));
            return true;
        }
        assert(t@.subrange(i as int, i + w@.len())[k as int] == t@[i + k]);
        if i == last {
            assert forall|j: int| !occurs_at(w@, t@, j) by {
                if 0 <= j && j + w@.len() <= t@.len() {
                    assert(j <= i);
                }
            }
            return false;
        }
        i += 1;
    }
    assert forall|j: int| !occurs_at(w@, t@, j) by {
        if 0 <= j && j + w@.len() <= t@.len() {
            assert(j < i);
        }
    }
    false
}

} // verus!
