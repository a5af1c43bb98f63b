//! Text primitives. Text is modelled as the sequence of its characters.
use vstd::prelude::*;

verus! {

/// `String::push` appends the given character to the end of the string.
pub assume_specification[ String::push ](s: &mut String, c: char)
    ensures
        final(s)@ == old(s)@.push(c),
;

/// The characters with the Unicode `White_Space` property.
pub open spec fn is_white_space(c: char) -> bool {
    let u = c as u32;
    ||| 0x9 <= u <= 0xd
    ||| u == 0x20
    ||| u == 0x85
    ||| u == 0xa0
    ||| u == 0x1680
    ||| 0x2000 <= u <= 0x200a
    ||| u == 0x2028
    ||| u == 0x2029
    ||| u == 0x202f
    ||| u == 0x205f
    ||| u == 0x3000
}

/// A set of characters that scanning stops at or skips over.
#[derive(Clone, Copy)]
pub enum CharClass {
    WhiteSpace,
    NotWhiteSpace,
    Digit,
    Just(char),
    AnyBut(char),
}

impl CharClass {
    pub open spec fn has(self, c: char) -> bool {
        match self {
            CharClass::WhiteSpace => is_white_space(c),
            CharClass::NotWhiteSpace => !is_white_space(c),
            CharClass::Digit => '0' <= c <= '9',
            CharClass::Just(d) => c == d,
            CharClass::AnyBut(d) => c != d,
        }
    }

    /// Whether `c` belongs to the class.
    pub fn contains(self, c: char) -> (r: bool)
        ensures
            r == self.has(c),
    {
        match self {
            CharClass::WhiteSpace => white_space(c),
            CharClass::NotWhiteSpace => !white_space(c),
            CharClass::Digit => '0' <= c && c <= '9',
            CharClass::Just(d) => c == d,
            CharClass::AnyBut(d) => c != d,
        }
    }
}

/// Whether `c` is white space.
pub fn white_space(c: char) -> (r: bool)
    ensures
        r == is_white_space(c),
{
    let u: u32 = c as u32;
    (0x9 <= u && u <= 0xd) || u == 0x20 || u == 0x85 || u == 0xa0 || u == 0x1680 || (0x2000 <= u
        && u <= 0x200a) || u == 0x2028 || u == 0x2029 || u == 0x202f || u == 0x205f || u == 0x3000
}

/// How many characters at the front of `s` belong to `class`.
pub open spec fn leading(s: Seq<char>, class: CharClass) -> nat
    decreases s.len(),
{
    if s.len() > 0 && class.has(s[0]) {
        1 + leading(s.drop_first(), class)
    } else {
        0
    }
}

/// `s` without its leading characters of `class`.
pub open spec fn skip_leading(s: Seq<char>, class: CharClass) -> Seq<char> {
    s.skip(leading(s, class) as int)
}

/// The leading characters of `s` that belong to `class`.
pub open spec fn take_leading(s: Seq<char>, class: CharClass) -> Seq<char> {
    s.take(leading(s, class) as int)
}

/// `s` without its trailing white space.
pub open spec fn trim_end(s: Seq<char>) -> Seq<char>
    decreases s.len(),
{
    if s.len() > 0 && is_white_space(s.last()) {
        trim_end(s.drop_last())
    } else {
        s
    }
}

/// `s` without its leading and trailing white space.
pub open spec fn trim(s: Seq<char>) -> Seq<char> {
    trim_end(skip_leading(s, CharClass::WhiteSpace))
}

/// The maximal runs of characters of `s` that are not white space, in order.
pub open spec fn words(s: Seq<char>) -> Seq<Seq<char>>
    decreases s.len(),
    via words_decreases
{
    let rest = skip_leading(s, CharClass::WhiteSpace);
    if rest.len() == 0 {
        Seq::empty()
    } else {
        seq![take_leading(rest, CharClass::NotWhiteSpace)] + words(
            skip_leading(rest, CharClass::NotWhiteSpace),
        )
    }
}

#[via_fn]
proof fn words_decreases(s: Seq<char>) {
    let rest = skip_leading(s, CharClass::WhiteSpace);
    lemma_leading(s, CharClass::WhiteSpace);
    lemma_leading(rest, CharClass::NotWhiteSpace);
}

/// The parts of `s` between the occurrences of `sep`, in order; never empty.
pub open spec fn split(s: Seq<char>, sep: char) -> Seq<Seq<char>>
    decreases s.len(),
    via split_decreases
{
    let head = take_leading(s, CharClass::AnyBut(sep));
    if head.len() >= s.len() {
        seq![s]
    } else {
        seq![head] + split(s.skip(head.len() as int + 1), sep)
    }
}

#[via_fn]
proof fn split_decreases(s: Seq<char>, sep: char) {
    lemma_leading(s, CharClass::AnyBut(sep));
}

/// The parts written one after another with `sep` between neighbours.
pub open spec fn join(parts: Seq<Seq<char>>, sep: Seq<char>) -> Seq<char>
    decreases parts.len(),
{
    if parts.len() == 0 {
        Seq::empty()
    } else if parts.len() == 1 {
        parts[0]
    } else {
        join(parts.drop_last(), sep) + sep + parts.last()
    }
}

/// What follows `prefix` in `s`, where `s` begins with `prefix`.
pub open spec fn strip_prefix(s: Seq<char>, prefix: Seq<char>) -> Option<Seq<char>> {
    if prefix.is_prefix_of(s) {
        Some(s.skip(prefix.len() as int))
    } else {
        None
    }
}

/// The number that a sequence of decimal digits writes.
pub open spec fn digits_value(s: Seq<char>) -> nat
    decreases s.len(),
{
    if s.len() == 0 {
        0
    } else {
        digits_value(s.drop_last()) * 10 + (s.last() as u32 - '0' as u32) as nat
    }
}

/// Whether `s` is a non-empty sequence of decimal digits.
pub open spec fn all_digits(s: Seq<char>) -> bool {
    s.len() > 0 && forall|i: int| 0 <= i < s.len() ==> CharClass::Digit.has(#[trigger] s[i])
}

/// The `u32` that `s` writes: decimal digits, with an optional plus sign in
/// front, of a number that fits.
pub open spec fn u32_value(s: Seq<char>) -> Option<u32> {
    let digits = if s.len() > 0 && s[0] == '+' {
        s.drop_first()
    } else {
        s
    };
    if all_digits(digits) && digits_value(digits) <= u32::MAX {
        Some(digits_value(digits) as u32)
    } else {
        None
    }
}

/// The decimal digit of a number below ten.
pub open spec fn digit_char(d: nat) -> char {
    (48 + d) as char
}

/// The decimal notation of `n`, without leading zeros.
pub open spec fn decimal(n: nat) -> Seq<char>
    decreases n,
{
    if n < 10 {
        seq![digit_char(n)]
    } else {
        decimal(n / 10).push(digit_char(n % 10))
    }
}

/// What [`leading`] counts: a prefix of the class that ends where the class does.
pub proof fn lemma_leading(s: Seq<char>, class: CharClass)
    ensures
        leading(s, class) <= s.len(),
        forall|i: int| 0 <= i < leading(s, class) ==> class.has(#[trigger] s[i]),
        leading(s, class) < s.len() ==> !class.has(s[leading(s, class) as int]),
    decreases s.len(),
{
    if s.len() > 0 && class.has(s[0]) {
        let t = s.drop_first();
        lemma_leading(t, class);
        assert forall|i: int| 0 <= i < leading(s, class) implies class.has(#[trigger] s[i]) by {
            if i > 0 {
                assert(s[i] == t[i - 1]);
            }
        }
        if leading(s, class) < s.len() {
            assert(s[leading(s, class) as int] == t[leading(t, class) as int]);
        }
    }
}

/// A prefix of the class that ends where the class does is the one counted.
pub proof fn lemma_leading_is(s: Seq<char>, class: CharClass, n: int)
    requires
        0 <= n <= s.len(),
        forall|i: int| 0 <= i < n ==> class.has(#[trigger] s[i]),
        n < s.len() ==> !class.has(s[n]),
    ensures
        leading(s, class) == n,
{
    lemma_leading(s, class);
    let k = leading(s, class) as int;
    if k < n {
        assert(class.has(s[k]));
    } else if n < k {
        assert(class.has(s[n]));
    }
}

/// The characters of `s`.
pub fn chars_of(s: &str) -> (r: Vec<char>)
    ensures
        r@ == s@,
{
    let mut r: Vec<char> = Vec::new();
    for c in it: s.chars()
        invariant
            it.seq() == s@,
            r@ == s@.take(it.index() as int),
    {
        r.push(c);
        assert(s@.take(it.index() + 1) =~= s@.take(it.index() as int).push(c));
    }
    assert(s@.take(s@.len() as int) =~= s@);
    r
}

/// The text that consists of `chars`.
pub fn string_of(chars: &[char]) -> (r: String)
    ensures
        r@ == chars@,
{
    let mut r = String::new();
    let n: usize = chars.len();
    for i in 0..n
        invariant
            n == chars@.len(),
            r@ == chars@.take(i as int),
    {
        r.push(chars[i]);
        assert(chars@.take(i + 1) =~= chars@.take(i as int).push(chars@[i as int]));
    }
    assert(chars@.take(n as int) =~= chars@);
    r
}

/// Whether two pieces of text are the same.
pub fn text_eq(a: &str, b: &str) -> (r: bool)
    ensures
        r == (a@ == b@),
{
    let x: Vec<char> = chars_of(a);
    let y: Vec<char> = chars_of(b);
    if x.len() != y.len() {
        return false;
    }
    let n: usize = x.len();
    for i in 0..n
        invariant
            n == x@.len(),
            n == y@.len(),
            x@ == a@,
            y@ == b@,
            forall|k: int| 0 <= k < i ==> x@[k] == y@[k],
    {
        if x[i] != y[i] {
            return false;
        }
    }
    assert(x@ =~= y@);
    true
}

/// Whether `text` is one of `texts`.
pub fn contains_text(texts: &[String], text: &str) -> (r: bool)
    ensures
        r == texts.deep_view().contains(text@),
{
    let n: usize = texts.len();
    for i in 0..n
        invariant
            n == texts@.len(),
            forall|k: int| 0 <= k < i ==> texts.deep_view()[k] != text@,
    {
        if text_eq(texts[i].as_str(), text) {
            assert(texts.deep_view()[i as int] == text@);
            return true;
        }
    }
    false
}

/// Where the characters of `class` that start at `from` end.
pub fn leading_end(chars: &[char], from: usize, class: CharClass) -> (r: usize)
    requires
        from <= chars@.len(),
    ensures
        from <= r <= chars@.len(),
        r - from == leading(chars@.skip(from as int), class),
{
    let ghost s = chars@.skip(from as int);
    let mut i: usize = from;
    while i < chars.len() && class.contains(chars[i])
        invariant
            from <= i <= chars@.len(),
            s == chars@.skip(from as int),
            forall|k: int| 0 <= k < i - from ==> class.has(#[trigger] s[k]),
        decreases chars@.len() - i,
    {
        assert(s[i - from] == chars@[i as int]);
        i = i + 1;
    }
    proof {
        if i < chars@.len() {
            assert(s[i - from] == chars@[i as int]);
        }
        lemma_leading_is(s, class, i - from);
    }
    i
}

/// The bounds of `chars` without leading and trailing white space.
pub fn trim_bounds(chars: &[char]) -> (r: (usize, usize))
    ensures
        0 <= r.0 <= r.1 <= chars@.len(),
        chars@.subrange(r.0 as int, r.1 as int) == trim(chars@),
{
    assert(chars@.skip(0) =~= chars@);
    let start: usize = leading_end(chars, 0, CharClass::WhiteSpace);
    let mut end: usize = chars.len();
    assert(chars@.subrange(start as int, end as int) =~= chars@.skip(start as int));
    while end > start && white_space(chars[end - 1])
        invariant
            start <= end <= chars@.len(),
            trim_end(chars@.subrange(start as int, end as int)) == trim(chars@),
        decreases end,
    {
        assert(chars@.subrange(start as int, end as int).drop_last() =~= chars@.subrange(
            start as int,
            end - 1,
        ));
        end = end - 1;
    }
    (start, end)
}

proof fn lemma_trim_end(s: Seq<char>)
    ensures
        trim_end(s).len() <= s.len(),
        trim_end(s) == s.take(trim_end(s).len() as int),
        trim_end(s).len() > 0 ==> !is_white_space(trim_end(s).last()),
    decreases s.len(),
{
    if s.len() > 0 && is_white_space(s.last()) {
        lemma_trim_end(s.drop_last());
        assert(s.drop_last().take(trim_end(s).len() as int) =~= s.take(trim_end(s).len() as int));
    } else {
        assert(s.take(s.len() as int) =~= s);
    }
}

/// What is left of a text without its surrounding white space is a stretch of
/// it, with none of that around.
pub proof fn lemma_trim(s: Seq<char>)
    ensures
        trim(trim(s)) == trim(s),
        forall|c: char| #[trigger] trim(s).contains(c) ==> s.contains(c),
{
    let class = CharClass::WhiteSpace;
    let u = skip_leading(s, class);
    let t = trim(s);
    lemma_leading(s, class);
    lemma_trim_end(u);
    if t.len() > 0 {
        assert(t[0] == u[0]);
        assert(u[0] == s[leading(s, class) as int]);
    }
    assert(leading(t, class) == 0);
    assert(skip_leading(t, class) =~= t);
    assert forall|c: char| #[trigger] t.contains(c) implies s.contains(c) by {
        let i = t.index_of(c);
        assert(u[i] == t[i]);
        assert(s[leading(s, class) + i] == c);
    }
}

/// Trimming twice is trimming once.
pub proof fn law_trimming_twice_is_trimming_once(s: Seq<char>)
    ensures
        trim(trim(s)) == trim(s),
{
    lemma_trim(s);
}

/// `s` without its leading and trailing white space.
pub fn trimmed(s: &str) -> (r: String)
    ensures
        r@ == trim(s@),
{
    let chars: Vec<char> = chars_of(s);
    let (start, end) = trim_bounds(chars.as_slice());
    string_of(vstd::slice::slice_subrange(chars.as_slice(), start, end))
}

/// Adding one more part to a joined text.
pub proof fn lemma_join_push(parts: Seq<Seq<char>>, part: Seq<char>, sep: Seq<char>)
    ensures
        join(parts.push(part), sep) == if parts.len() == 0 {
            part
        } else {
            join(parts, sep) + sep + part
        },
{
    assert(parts.push(part).drop_last() =~= parts);
}

/// The words of `s`, one space apart.
pub fn collapse_white_space(s: &str) -> (r: String)
    ensures
        r@ == join(words(s@), seq![' ']),
{
    let chars: Vec<char> = chars_of(s);
    let mut r = String::new();
    let mut first: bool = true;
    let mut at: usize = 0;
    let ghost mut done: Seq<Seq<char>> = Seq::empty();
    assert(chars@.skip(0) =~= chars@);
    assert(done + words(chars@) =~= words(chars@));
    loop
        invariant_except_break
            at <= chars@.len(),
            done + words(chars@.skip(at as int)) == words(chars@),
            r@ == join(done, seq![' ']),
            first == (done.len() == 0),
        ensures
            r@ == join(words(chars@), seq![' ']),
        decreases chars@.len() - at,
    {
        let ghost rest = chars@.skip(at as int);
        let start: usize = leading_end(chars.as_slice(), at, CharClass::WhiteSpace);
        assert(skip_leading(rest, CharClass::WhiteSpace) =~= chars@.skip(start as int));
        if start == chars.len() {
            assert(words(rest) =~= Seq::empty());
            assert(done + words(rest) =~= done);
            break;
        }
        let end: usize = leading_end(chars.as_slice(), start, CharClass::NotWhiteSpace);
        let ghost tail = chars@.skip(start as int);
        let ghost word = take_leading(tail, CharClass::NotWhiteSpace);
        proof {
            lemma_leading(rest, CharClass::WhiteSpace);
            lemma_leading(tail, CharClass::NotWhiteSpace);
            assert(tail[0] == rest[start - at]);
            assert(skip_leading(tail, CharClass::NotWhiteSpace) =~= chars@.skip(end as int));
            assert(word =~= chars@.subrange(start as int, end as int));
            assert(words(rest) == seq![word] + words(chars@.skip(end as int)));
            assert(done + words(rest) =~= done.push(word) + words(chars@.skip(end as int)));
            lemma_join_push(done, word, seq![' ']);
        }
        if !first {
            r.push(' ');
        }
        first = false;
        let ghost before = r@;
        let piece: String = string_of(
            vstd::slice::slice_subrange(chars.as_slice(), start, end),
        );
        r.append(piece.as_str());
        proof {
            if done.len() == 0 {
                assert(r@ =~= word);
            } else {
                assert(before =~= join(done, seq![' ']) + seq![' ']);
                assert(r@ =~= join(done, seq![' ']) + seq![' '] + word);
            }
            done = done.push(word);
        }
        at = end;
    }
    r
}

/// The parts of `chars` between the occurrences of `sep`.
pub fn split_chars(chars: &[char], sep: char) -> (r: Vec<Vec<char>>)
    ensures
        r.deep_view() == split(chars@, sep),
        r@.len() > 0,
{
    let mut r: Vec<Vec<char>> = Vec::new();
    let mut at: usize = 0;
    assert(chars@.skip(0) =~= chars@);
    assert(r.deep_view() + split(chars@, sep) =~= split(chars@, sep));
    loop
        invariant_except_break
            at <= chars@.len(),
            r.deep_view() + split(chars@.skip(at as int), sep) == split(chars@, sep),
        ensures
            r.deep_view() == split(chars@, sep),
            r@.len() > 0,
        decreases chars@.len() - at,
    {
        let ghost rest = chars@.skip(at as int);
        let ghost before = r.deep_view();
        let end: usize = leading_end(chars, at, CharClass::AnyBut(sep));
        let head: Vec<char> = vstd::slice::slice_to_vec(
            vstd::slice::slice_subrange(chars, at, end),
        );
        proof {
            lemma_leading(rest, CharClass::AnyBut(sep));
            assert(head@ =~= take_leading(rest, CharClass::AnyBut(sep)));
        }
        r.push(head);
        assert(head.deep_view() =~= head@);
        assert(r.deep_view() =~= before.push(head@));
        if end == chars.len() {
            assert(head@ =~= rest);
            assert(before + split(rest, sep) =~= before.push(rest));
            break;
        }
        assert(rest.skip(head@.len() as int + 1) =~= chars@.skip(end + 1));
        assert(before + split(rest, sep) =~= before.push(head@) + split(chars@.skip(end + 1), sep));
        at = end + 1;
    }
    r
}

/// A longer number of the same digits is no smaller.
proof fn lemma_digits_value_grows(s: Seq<char>, k: int)
    requires
        0 <= k <= s.len(),
        forall|i: int| 0 <= i < s.len() ==> CharClass::Digit.has(#[trigger] s[i]),
    ensures
        digits_value(s.take(k)) <= digits_value(s),
    decreases s.len(),
{
    if k == s.len() {
        assert(s.take(k) =~= s);
    } else {
        let t = s.drop_last();
        lemma_digits_value_grows(t, k);
        assert(t.take(k) =~= s.take(k));
    }
}

/// The `u32` that `chars` writes.
pub fn parse_u32(chars: &[char]) -> (r: Option<u32>)
    ensures
        r == u32_value(chars@),
{
    let n: usize = chars.len();
    let start: usize = if n > 0 && chars[0] == '+' {
        1
    } else {
        0
    };
    let ghost digits = chars@.skip(start as int);
    proof {
        if start == 0 {
            assert(digits =~= chars@);
        } else {
            assert(digits =~= chars@.drop_first());
        }
    }
    if start == n {
        return None;
    }
    let mut value: u32 = 0;
    let mut i: usize = start;
    assert(digits.take(0) =~= Seq::empty());
    while i < n
        invariant
            start <= i <= n,
            n == chars@.len(),
            digits == chars@.skip(start as int),
            u32_value(chars@) == if all_digits(digits) && digits_value(digits) <= u32::MAX {
                Some(digits_value(digits) as u32)
            } else {
                None
            },
            forall|k: int| 0 <= k < i - start ==> CharClass::Digit.has(#[trigger] digits[k]),
            value == digits_value(digits.take(i - start)),
        decreases n - i,
    {
        let c: char = chars[i];
        assert(c == digits[i - start]);
        if !CharClass::Digit.contains(c) {
            return None;
        }
        let d: u32 = c as u32 - '0' as u32;
        proof {
            let t = digits.take(i - start + 1);
            assert(t.drop_last() =~= digits.take(i - start));
            assert(t.last() == c);
            assert(digits_value(t) == value * 10 + d);
            if all_digits(digits) {
                lemma_digits_value_grows(digits, i - start + 1);
            }
        }
        match value.checked_mul(10) {
            None => {
                return None;
            },
            Some(tens) => {
                match tens.checked_add(d) {
                    None => {
                        return None;
                    },
                    Some(sum) => {
                        value = sum;
                    },
                }
            },
        }
        i = i + 1;
    }
    assert(digits.take(n - start) =~= digits);
    Some(value)
}

/// The decimal notation of `n`.
pub fn decimal_text(n: u64) -> (r: String)
    ensures
        r@ == decimal(n as nat),
    decreases n,
{
    let d: u8 = (n % 10) as u8;
    let c: char = (48u8 + d) as char;
    assert(c == digit_char((n % 10) as nat));
    let mut r = if n < 10 {
        String::new()
    } else {
        decimal_text(n / 10)
    };
    r.push(c);
    assert(n < 10 ==> r@ =~= seq![digit_char(n as nat)]);
    r
}

/// The decimal notation of a number is made of digits and writes that number.
pub proof fn law_decimal_writes_the_number(n: nat)
    ensures
        all_digits(decimal(n)),
        digits_value(decimal(n)) == n,
        n <= u32::MAX ==> u32_value(decimal(n)) == Some(n as u32),
    decreases n,
{
    let s = decimal(n);
    if n < 10 {
        assert(s.drop_last() =~= Seq::empty());
        assert(s.last() == digit_char(n));
        assert(digits_value(Seq::<char>::empty()) == 0);
        assert(digits_value(s) == digits_value(s.drop_last()) * 10 + n);
    } else {
        let before = decimal(n / 10);
        law_decimal_writes_the_number(n / 10);
        assert(s.drop_last() =~= before);
        assert(s.last() == digit_char(n % 10));
        assert(digits_value(s) == digits_value(before) * 10 + n % 10);
        assert forall|i: int| 0 <= i < s.len() implies CharClass::Digit.has(#[trigger] s[i]) by {
            if i < before.len() {
                assert(s[i] == before[i]);
            }
        }
    }
    assert(CharClass::Digit.has(s[0]));
}

/// Nothing is trimmed off a text that begins and ends with something else than
/// white space.
pub proof fn lemma_nothing_to_trim(s: Seq<char>)
    requires
        s.len() > 0,
        !is_white_space(s[0]),
        !is_white_space(s.last()),
    ensures
        trim(s) == s,
{
    assert(leading(s, CharClass::WhiteSpace) == 0);
    assert(skip_leading(s, CharClass::WhiteSpace) =~= s);
}

/// The first part of a text that is split.
pub proof fn lemma_split_first(first: Seq<char>, rest: Seq<char>, sep: char)
    requires
        forall|i: int| 0 <= i < first.len() ==> #[trigger] first[i] != sep,
    ensures
        split(first.push(sep) + rest, sep) == seq![first] + split(rest, sep),
        split(first, sep) == seq![first],
{
    let s = first.push(sep) + rest;
    let class = CharClass::AnyBut(sep);
    let n = first.len() as int;
    assert forall|i: int| 0 <= i < n implies class.has(#[trigger] s[i]) by {
        assert(s[i] == first[i]);
    }
    lemma_leading_is(s, class, n);
    assert(s.take(n) =~= first);
    assert(s.skip(n + 1) =~= rest);
    assert forall|i: int| 0 <= i < n implies class.has(#[trigger] first[i]) by {}
    lemma_leading_is(first, class, n);
    assert(first.take(n) =~= first);
}

/// The decimal notation of `n`, with a minus sign where it is negative.
pub open spec fn signed_decimal(n: int) -> Seq<char> {
    if n < 0 {
        "-"@ + decimal((-n) as nat)
    } else {
        decimal(n as nat)
    }
}

/// The decimal notation of `n`.
pub fn signed_decimal_text(n: i32) -> (r: String)
    ensures
        r@ == signed_decimal(n as int),
{
    let wide: i64 = n as i64;
    if wide < 0 {
        "-".to_string().concat(decimal_text((-wide) as u64).as_str())
    } else {
        decimal_text(wide as u64)
    }
}

/// What follows `prefix` in `chars`, where they begin with `prefix`.
pub fn after_prefix<'a>(chars: &'a [char], prefix: &str) -> (r: Option<&'a [char]>)
    ensures
        match r {
            Some(rest) => strip_prefix(chars@, prefix@) == Some(rest@),
            None => strip_prefix(chars@, prefix@) is None,
        },
{
    let p: Vec<char> = chars_of(prefix);
    let n: usize = p.len();
    if chars.len() < n {
        return None;
    }
    for i in 0..n
        invariant
            n == p@.len(),
            n <= chars@.len(),
            p@ == prefix@,
            forall|k: int| 0 <= k < i ==> p@[k] == chars@[k],
    {
        if chars[i] != p[i] {
            proof {
                if prefix@.is_prefix_of(chars@) {
                    assert(chars@.subrange(0, n as int)[i as int] == chars@[i as int]);
                }
            }
            return None;
        }
    }
    assert(prefix@ =~= chars@.subrange(0, n as int));
    let rest = vstd::slice::slice_subrange(chars, n, chars.len());
    assert(rest@ =~= chars@.skip(n as int));
    Some(rest)
}

/// Whether every character of `s` is white space.
pub open spec fn is_blank(s: Seq<char>) -> bool {
    forall|i: int| 0 <= i < s.len() ==> is_white_space(#[trigger] s[i])
}

/// Whether `s` is not empty and holds no white space.
pub open spec fn is_word(s: Seq<char>) -> bool {
    s.len() > 0 && forall|i: int| 0 <= i < s.len() ==> !is_white_space(#[trigger] s[i])
}

proof fn lemma_trim_end_pad(s: Seq<char>, pad: Seq<char>)
    requires
        is_blank(pad),
        s.len() == 0 || !is_white_space(s.last()),
    ensures
        trim_end(s + pad) == s,
    decreases pad.len(),
{
    if pad.len() == 0 {
        assert(s + pad =~= s);
    } else {
        let rest = pad.drop_last();
        assert(is_blank(rest)) by {
            assert forall|i: int| 0 <= i < rest.len() implies is_white_space(
                #[trigger] rest[i],
            ) by {
                assert(rest[i] == pad[i]);
            }
        }
        assert((s + pad).last() == pad[pad.len() - 1]);
        assert((s + pad).drop_last() =~= s + rest);
        lemma_trim_end_pad(s, rest);
    }
}

/// Trimming takes off the white space around a text and nothing else.
pub proof fn law_trimming_takes_off_white_space_alone(
    before: Seq<char>,
    s: Seq<char>,
    after: Seq<char>,
)
    requires
        is_blank(before),
        is_blank(after),
        s.len() == 0 || (!is_white_space(s[0]) && !is_white_space(s.last())),
    ensures
        trim(before + s + after) == s,
{
    let class = CharClass::WhiteSpace;
    let all = before + s + after;
    if s.len() == 0 {
        assert forall|i: int| 0 <= i < all.len() implies class.has(#[trigger] all[i]) by {
            if i < before.len() {
                assert(all[i] == before[i]);
            } else {
                assert(all[i] == after[i - before.len()]);
            }
        }
        lemma_leading_is(all, class, all.len() as int);
        assert(skip_leading(all, class) =~= s);
    } else {
        assert forall|i: int| 0 <= i < before.len() implies class.has(#[trigger] all[i]) by {
            assert(all[i] == before[i]);
        }
        assert(all[before.len() as int] == s[0]);
        lemma_leading_is(all, class, before.len() as int);
        assert(skip_leading(all, class) =~= s + after);
        lemma_trim_end_pad(s, after);
    }
}

proof fn lemma_trim_end_keeps(s: Seq<char>)
    requires
        s.len() > 0,
        !is_white_space(s[0]),
    ensures
        trim_end(s).len() > 0,
    decreases s.len(),
{
    if is_white_space(s.last()) {
        assert(s.drop_last()[0] == s[0]);
        lemma_trim_end_keeps(s.drop_last());
    }
}

/// Trimming leaves nothing exactly of a blank text.
pub proof fn law_only_blank_texts_vanish(s: Seq<char>)
    ensures
        trim(s).len() == 0 <==> is_blank(s),
{
    if is_blank(s) {
        let none = Seq::<char>::empty();
        law_trimming_takes_off_white_space_alone(s, none, none);
        assert(s + none + none =~= s);
    } else {
        let class = CharClass::WhiteSpace;
        lemma_leading(s, class);
        let rest = skip_leading(s, class);
        let i = choose|i: int| 0 <= i < s.len() && !is_white_space(#[trigger] s[i]);
        assert(!class.has(s[i]));
        assert(rest[0] == s[leading(s, class) as int]);
        lemma_trim_end_keeps(rest);
    }
}

/// White space separates words and is part of none: a blank text has none, and
/// whatever follows the first word, after the white space before it, has the
/// others.
pub proof fn law_white_space_separates_words(before: Seq<char>, word: Seq<char>, rest: Seq<char>)
    requires
        is_blank(before),
        is_word(word),
        rest.len() == 0 || is_white_space(rest[0]),
    ensures
        words(before) == Seq::<Seq<char>>::empty(),
        words(before + word + rest) == seq![word] + words(rest),
{
    let white = CharClass::WhiteSpace;
    let dark = CharClass::NotWhiteSpace;
    let all = before + word + rest;
    assert forall|i: int| 0 <= i < before.len() implies white.has(#[trigger] before[i]) by {}
    lemma_leading_is(before, white, before.len() as int);
    assert forall|i: int| 0 <= i < before.len() implies white.has(#[trigger] all[i]) by {
        assert(all[i] == before[i]);
    }
    assert(all[before.len() as int] == word[0]);
    lemma_leading_is(all, white, before.len() as int);
    let tail = skip_leading(all, white);
    assert(tail =~= word + rest);
    assert forall|i: int| 0 <= i < word.len() implies dark.has(#[trigger] tail[i]) by {
        assert(tail[i] == word[i]);
    }
    if rest.len() > 0 {
        assert(tail[word.len() as int] == rest[0]);
    }
    lemma_leading_is(tail, dark, word.len() as int);
    assert(take_leading(tail, dark) =~= word);
    assert(skip_leading(tail, dark) =~= rest);
}

/// Joining from the front.
proof fn lemma_join_first(first: Seq<char>, rest: Seq<Seq<char>>, sep: Seq<char>)
    requires
        rest.len() > 0,
    ensures
        join(seq![first] + rest, sep) == first + sep + join(rest, sep),
    decreases rest.len(),
{
    let all = seq![first] + rest;
    assert(all.last() == rest.last());
    assert(all.drop_last() =~= seq![first] + rest.drop_last());
    if rest.len() == 1 {
        assert(all.drop_last() =~= seq![first]);
        assert(join(seq![first], sep) == first);
        assert(join(all, sep) == first + sep + rest[0]);
    } else {
        lemma_join_first(first, rest.drop_last(), sep);
        assert((first + sep + join(rest.drop_last(), sep)) + sep + rest.last() =~= first + sep + (
        join(rest.drop_last(), sep) + sep + rest.last()));
    }
}

/// Whether every white space in `s` is a single space between other characters.
pub open spec fn is_single_spaced(s: Seq<char>) -> bool {
    forall|i: int|
        0 <= i < s.len() && is_white_space(#[trigger] s[i]) ==> {
            &&& s[i] == ' '
            &&& 0 < i < s.len() - 1
            &&& !is_white_space(s[i + 1])
        }
}

proof fn lemma_joined_words(parts: Seq<Seq<char>>)
    requires
        forall|i: int| 0 <= i < parts.len() ==> is_word(#[trigger] parts[i]),
    ensures
        words(join(parts, seq![' '])) == parts,
        is_single_spaced(join(parts, seq![' '])),
        parts.len() > 0 ==> join(parts, seq![' ']).len() > 0,
        parts.len() > 0 ==> !is_white_space(join(parts, seq![' '])[0]),
    decreases parts.len(),
{
    let none = Seq::<char>::empty();
    let space = seq![' '];
    if parts.len() == 0 {
        assert(words(none) =~= parts);
    } else if parts.len() == 1 {
        let word = parts[0];
        law_white_space_separates_words(none, word, none);
        assert(none + word + none =~= word);
        assert(words(none) =~= Seq::empty());
        assert(seq![word] + Seq::<Seq<char>>::empty() =~= parts);
    } else {
        let word = parts[0];
        let rest = parts.drop_first();
        assert forall|i: int| 0 <= i < rest.len() implies is_word(#[trigger] rest[i]) by {
            assert(rest[i] == parts[i + 1]);
        }
        lemma_joined_words(rest);
        let tail = join(rest, space);
        assert(parts =~= seq![word] + rest);
        lemma_join_first(word, rest, space);
        let all = join(parts, space);
        assert(all == word + space + tail);
        assert(none + word + (space + tail) =~= all);
        law_white_space_separates_words(none, word, space + tail);
        lemma_words_skip(space, tail);
        assert(all[0] == word[0]);
        assert forall|i: int| 0 <= i < all.len() && is_white_space(#[trigger] all[i]) implies {
            &&& all[i] == ' '
            &&& 0 < i < all.len() - 1
            &&& !is_white_space(all[i + 1])
        } by {
            let n = word.len() as int;
            if i < n {
                assert(all[i] == word[i]);
            } else if i == n {
                assert(all[i + 1] == tail[0]);
            } else {
                assert(all[i] == tail[i - n - 1]);
                assert(all[i + 1] == tail[i - n - 1 + 1]);
            }
        }
    }
}

/// White space in front of a text changes none of its words.
proof fn lemma_words_skip(before: Seq<char>, s: Seq<char>)
    requires
        is_blank(before),
        s.len() > 0,
        !is_white_space(s[0]),
    ensures
        words(before + s) == words(s),
{
    let white = CharClass::WhiteSpace;
    let all = before + s;
    assert forall|i: int| 0 <= i < before.len() implies white.has(#[trigger] all[i]) by {
        assert(all[i] == before[i]);
    }
    assert(all[before.len() as int] == s[0]);
    lemma_leading_is(all, white, before.len() as int);
    assert(skip_leading(all, white) =~= s);
    assert(leading(s, white) == 0);
    assert(skip_leading(s, white) =~= s);
}

proof fn lemma_words(s: Seq<char>)
    ensures
        forall|i: int| 0 <= i < words(s).len() ==> is_word(#[trigger] words(s)[i]),
    decreases s.len(),
{
    let white = CharClass::WhiteSpace;
    let dark = CharClass::NotWhiteSpace;
    let rest = skip_leading(s, white);
    lemma_leading(s, white);
    lemma_leading(rest, dark);
    if rest.len() > 0 {
        let word = take_leading(rest, dark);
        let more = words(skip_leading(rest, dark));
        assert(rest[0] == s[leading(s, white) as int]);
        lemma_words(skip_leading(rest, dark));
        assert forall|i: int| 0 <= i < words(s).len() implies is_word(#[trigger] words(s)[i]) by {
            if i == 0 {
                assert(words(s)[0] == word);
                assert forall|k: int| 0 <= k < word.len() implies !is_white_space(
                    #[trigger] word[k],
                ) by {
                    assert(dark.has(rest[k]));
                }
            } else {
                assert(words(s)[i] == more[i - 1]);
            }
        }
    }
}

/// Collapsing the white space of a text keeps its words, in their order, with
/// single spaces between them and none around.
pub proof fn law_collapsing_keeps_the_words(s: Seq<char>)
    ensures
        words(join(words(s), seq![' '])) == words(s),
        is_single_spaced(join(words(s), seq![' '])),
{
    lemma_words(s);
    lemma_joined_words(words(s));
}

/// What stands behind a prefix is what is left without it, and nothing is left of
/// a text that does not begin with the prefix.
pub proof fn law_prefixes_are_stripped(prefix: Seq<char>, rest: Seq<char>, s: Seq<char>)
    ensures
        strip_prefix(prefix + rest, prefix) == Some(rest),
        strip_prefix(s, prefix) matches Some(after) ==> s == prefix + after,
{
    assert((prefix + rest).subrange(0, prefix.len() as int) =~= prefix);
    assert((prefix + rest).skip(prefix.len() as int) =~= rest);
    if prefix.is_prefix_of(s) {
        assert(s =~= prefix + s.skip(prefix.len() as int));
    }
}

/// The notation of a number is its decimal digits, behind a minus sign where it is
/// negative.
pub proof fn law_signs_are_written(n: int)
    ensures
        n >= 0 ==> digits_value(signed_decimal(n)) == n && all_digits(signed_decimal(n)),
        n < 0 ==> signed_decimal(n)[0] == '-' && digits_value(signed_decimal(n).drop_first()) == -n,
{
    reveal_strlit("-");
    if n < 0 {
        law_decimal_writes_the_number((-n) as nat);
        assert(signed_decimal(n).drop_first() =~= decimal((-n) as nat));
    } else {
        law_decimal_writes_the_number(n as nat);
    }
}

} // verus!
