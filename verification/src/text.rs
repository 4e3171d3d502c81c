//! Character-level helpers shared by the rest of the crate: conversions between
//! strings and character vectors, canonical decimal numerals, and whitespace
//! tokenisation.

use vstd::prelude::*;
use vstd::string::StringSliceAdditionalSpecFns;

verus! {

/// `String::push` appends one character to the end of the string.
pub assume_specification[ String::push ](s: &mut String, c: char)
    ensures
        final(s)@ == old(s)@.push(c),
;

/// What `str::to_lowercase` returns for a string with the given characters.
pub uninterp spec fn lowercase_of(s: Seq<char>) -> Seq<char>;

/// `str::to_lowercase` maps a string to its lowercase form; the result
/// depends on the characters of the argument and on nothing else.
pub assume_specification[ str::to_lowercase ](s: &str) -> (lowered: String)
    ensures
        lowered@ == lowercase_of(s@),
;

/// Collects the characters of `s` in order.
pub fn chars_of(s: &str) -> (out: Vec<char>)
    ensures
        out@ == s@,
{
    broadcast use vstd::string::group_string_axioms;

    let mut out: Vec<char> = Vec::new();
    for c in it: s.chars()
        invariant
            it.seq() == s@,
            out@ == s@.take(it.index()),
    {
        out.push(c);
    }
    assert(s@.take(s@.len() as int) == s@);
    out
}

/// Whether two string slices hold the same characters.
pub fn same_text(a: &str, b: &str) -> (r: bool)
    ensures
        r == (a@ == b@),
{
    broadcast use vstd::utf8::encode_utf8_decode_utf8;

    let x = a.as_bytes();
    let y = b.as_bytes();
    if x.len() != y.len() {
        return false;
    }
    let mut i: usize = 0;
    while i < x.len()
        invariant
            i <= x.len() == y.len(),
            x@ == a.spec_bytes(),
            y@ == b.spec_bytes(),
            forall|j: int| 0 <= j < i ==> x@[j] == y@[j],
        decreases x.len() - i,
    {
        if x[i] != y[i] {
            return false;
        }
        i += 1;
    }
    proof {
        assert(x@ =~= y@);
        assert(vstd::utf8::decode_utf8(vstd::utf8::encode_utf8(a@)) == a@);
        assert(vstd::utf8::decode_utf8(vstd::utf8::encode_utf8(b@)) == b@);
    }
    true
}

/// Builds the string whose characters are `chars[from..to]`, in order.
pub fn string_of_range(chars: &Vec<char>, from: usize, to: usize) -> (out: String)
    requires
        from <= to <= chars.len(),
    ensures
        out@ == chars@.subrange(from as int, to as int),
{
    let mut out = String::new();
    let mut i: usize = from;
    while i < to
        invariant
            from <= i <= to <= chars.len(),
            out@ == chars@.subrange(from as int, i as int),
        decreases to - i,
    {
        out.push(chars[i]);
        i += 1;
    }
    out
}

/// Builds the string whose characters are `chars`, in order.
pub fn string_of(chars: &Vec<char>) -> (out: String)
    ensures
        out@ == chars@,
{
    let out = string_of_range(chars, 0, chars.len());
    assert(chars@.subrange(0, chars@.len() as int) == chars@);
    out
}

/// The characters of each string of a list.
pub open spec fn texts(list: Seq<String>) -> Seq<Seq<char>> {
    Seq::new(list.len(), |i: int| list[i]@)
}

/// A list of strings with the same characters.
pub fn copy_strings(list: &Vec<String>) -> (copy: Vec<String>)
    ensures
        texts(copy@) == texts(list@),
{
    let mut copy: Vec<String> = Vec::new();
    let mut i: usize = 0;
    while i < list.len()
        invariant
            i <= list@.len(),
            copy@.len() == i,
            forall|j: int| 0 <= j < i ==> (#[trigger] copy@[j])@ == list@[j]@,
        decreases list@.len() - i,
    {
        copy.push(list[i].clone());
        i += 1;
    }
    assert(texts(copy@) =~= texts(list@));
    copy
}

/// Whether `list` holds a string with the characters of `word`.
pub fn contains_text(list: &Vec<String>, word: &str) -> (found: bool)
    ensures
        found == texts(list@).contains(word@),
{
    let mut i: usize = 0;
    while i < list.len()
        invariant
            i <= list@.len(),
            forall|j: int| 0 <= j < i ==> texts(list@)[j] != word@,
        decreases list@.len() - i,
    {
        if same_text(list[i].as_str(), word) {
            assert(texts(list@)[i as int] == word@);
            return true;
        }
        i += 1;
    }
    false
}

/// Appends every character of `tail` to `head`.
pub fn push_all(head: &mut Vec<char>, tail: &Vec<char>)
    ensures
        final(head)@ == old(head)@ + tail@,
{
    let mut i: usize = 0;
    while i < tail.len()
        invariant
            i <= tail.len(),
            head@ == old(head)@ + tail@.take(i as int),
        decreases tail.len() - i,
    {
        head.push(tail[i]);
        i += 1;
    }
    assert(tail@.take(tail@.len() as int) == tail@);
}

/// Whether `prefix` is an initial segment of `s`.
pub fn starts_with(s: &Vec<char>, prefix: &Vec<char>) -> (r: bool)
    ensures
        r == prefix@.is_prefix_of(s@),
{
    if prefix.len() > s.len() {
        return false;
    }
    let mut i: usize = 0;
    while i < prefix.len()
        invariant
            i <= prefix.len() <= s.len(),
            forall|j: int| 0 <= j < i ==> s@[j] == prefix@[j],
        decreases prefix.len() - i,
    {
        if s[i] != prefix[i] {
            return false;
        }
        i += 1;
    }
    assert(prefix@ =~= s@.subrange(0, prefix@.len() as int));
    true
}

/// Whether `suffix` is a final segment of `s`.
pub fn ends_with(s: &Vec<char>, suffix: &Vec<char>) -> (r: bool)
    ensures
        r == suffix@.is_suffix_of(s@),
{
    if suffix.len() > s.len() {
        return false;
    }
    let shift: usize = s.len() - suffix.len();
    let mut i: usize = 0;
    while i < suffix.len()
        invariant
            i <= suffix.len() <= s.len(),
            shift == s.len() - suffix.len(),
            forall|j: int| 0 <= j < i ==> s@[shift + j] == suffix@[j],
        decreases suffix.len() - i,
    {
        if s[shift + i] != suffix[i] {
            assert(s@.subrange(shift as int, s@.len() as int)[i as int] == s@[shift + i]);
            return false;
        }
        i += 1;
    }
    assert(suffix@ =~= s@.subrange(s@.len() - suffix@.len(), s@.len() as int));
    true
}

/// The decimal digit character for `d`, for `d` below ten.
pub open spec fn digit_char(d: int) -> char {
    if d == 0 {
        '0'
    } else if d == 1 {
        '1'
    } else if d == 2 {
        '2'
    } else if d == 3 {
        '3'
    } else if d == 4 {
        '4'
    } else if d == 5 {
        '5'
    } else if d == 6 {
        '6'
    } else if d == 7 {
        '7'
    } else if d == 8 {
        '8'
    } else {
        '9'
    }
}

/// Whether `c` is one of the ten decimal digit characters.
pub open spec fn is_digit(c: char) -> bool {
    '0' <= c <= '9'
}

/// The value of a decimal digit character.
pub open spec fn digit_value(c: char) -> int {
    c as int - '0' as int
}

/// The canonical decimal numeral of `n`: no sign, no leading zeros.
pub open spec fn decimal(n: nat) -> Seq<char>
    decreases n,
{
    if n < 10 {
        seq![digit_char(n as int)]
    } else {
        decimal(n / 10).push(digit_char((n % 10) as int))
    }
}

/// The number a sequence of digit characters denotes, most significant first.
pub open spec fn numeral_value(s: Seq<char>) -> nat
    decreases s.len(),
{
    if s.len() == 0 {
        0
    } else {
        (numeral_value(s.drop_last()) * 10 + digit_value(s.last())) as nat
    }
}

/// Whether `s` is a canonical decimal numeral.
pub open spec fn is_numeral(s: Seq<char>) -> bool {
    &&& s.len() > 0
    &&& forall|i: int| 0 <= i < s.len() ==> is_digit(#[trigger] s[i])
    &&& s.len() > 1 ==> s[0] != '0'
}

/// Every canonical numeral of a number is well formed and denotes that number.
pub proof fn lemma_decimal_is_numeral(n: nat)
    ensures
        is_numeral(decimal(n)),
        numeral_value(decimal(n)) == n,
        n > 0 ==> decimal(n)[0] != '0',
    decreases n,
{
    if n < 10 {
        let s = decimal(n);
        assert(s.drop_last() =~= Seq::<char>::empty());
        assert(numeral_value(s.drop_last()) == 0);
    } else {
        lemma_decimal_is_numeral(n / 10);
        let p = decimal(n / 10);
        let s = decimal(n);
        assert(s.drop_last() =~= p);
        assert(s.last() == digit_char((n % 10) as int));
        assert(s[0] == p[0]);
        assert forall|i: int| 0 <= i < s.len() implies is_digit(#[trigger] s[i]) by {
            if i < p.len() {
                assert(s[i] == p[i]);
            }
        }
    }
}

/// A well-formed numeral is the canonical numeral of the number it denotes.
pub proof fn lemma_numeral_is_decimal(s: Seq<char>)
    requires
        is_numeral(s),
    ensures
        decimal(numeral_value(s)) == s,
        s.len() > 1 ==> numeral_value(s) >= 10,
        s[0] != '0' ==> numeral_value(s) > 0,
    decreases s.len(),
{
    let p = s.drop_last();
    let d = digit_value(s.last());
    assert(is_digit(s.last()));
    if s.len() == 1 {
        assert(p =~= Seq::<char>::empty());
        assert(numeral_value(p) == 0);
        assert(numeral_value(s) == d);
        assert(decimal(d as nat) =~= s);
    } else {
        assert(p[0] == s[0]);
        assert(is_numeral(p)) by {
            assert forall|i: int| 0 <= i < p.len() implies is_digit(#[trigger] p[i]) by {
                assert(p[i] == s[i]);
            }
        }
        lemma_numeral_is_decimal(p);
        let v = numeral_value(p);
        assert(v > 0);
        let n = numeral_value(s);
        assert(n == v * 10 + d);
        assert(n / 10 == v && n % 10 == d);
        assert(decimal(n) =~= s);
    }
}

/// Two numbers with the same canonical numeral are equal.
pub proof fn lemma_decimal_injective(a: nat, b: nat)
    requires
        decimal(a) == decimal(b),
    ensures
        a == b,
{
    lemma_decimal_is_numeral(a);
    lemma_decimal_is_numeral(b);
}

/// The value of a digit sequence never exceeds the value of an extension of it.
pub proof fn lemma_numeral_value_prefix(s: Seq<char>, k: int)
    requires
        0 <= k <= s.len(),
        forall|i: int| 0 <= i < s.len() ==> is_digit(#[trigger] s[i]),
    ensures
        numeral_value(s.take(k)) <= numeral_value(s),
    decreases s.len() - k,
{
    if k == s.len() {
        assert(s.take(k) =~= s);
    } else {
        lemma_numeral_value_prefix(s, k + 1);
        let t = s.take(k + 1);
        assert(t.drop_last() =~= s.take(k));
        assert(is_digit(s[k]));
        assert(t.last() == s[k]);
    }
}

/// The decimal digit character of `d`.
fn digit_of(d: u64) -> (c: char)
    requires
        d < 10,
    ensures
        c == digit_char(d as int),
{
    if d == 0 {
        '0'
    } else if d == 1 {
        '1'
    } else if d == 2 {
        '2'
    } else if d == 3 {
        '3'
    } else if d == 4 {
        '4'
    } else if d == 5 {
        '5'
    } else if d == 6 {
        '6'
    } else if d == 7 {
        '7'
    } else if d == 8 {
        '8'
    } else {
        '9'
    }
}

/// Appends the canonical decimal numeral of `n` to `out`.
pub fn push_decimal(out: &mut Vec<char>, n: u64)
    ensures
        final(out)@ == old(out)@ + decimal(n as nat),
    decreases n,
{
    if n >= 10 {
        push_decimal(out, n / 10);
    }
    out.push(digit_of(n % 10));
    assert(out@ =~= old(out)@ + decimal(n as nat));
}

/// The canonical decimal numeral of `n` as a string.
pub fn decimal_string(n: u64) -> (out: String)
    ensures
        out@ == decimal(n as nat),
{
    let mut chars: Vec<char> = Vec::new();
    push_decimal(&mut chars, n);
    assert(chars@ =~= decimal(n as nat));
    string_of(&chars)
}

/// Reads `chars[from..to]` as a canonical decimal numeral.
///
/// Returns the number exactly when the range holds the canonical numeral of a
/// number that fits in 64 bits; signs, leading zeros, empty input and any
/// other character make the result `None`.
pub fn parse_decimal(chars: &Vec<char>, from: usize, to: usize) -> (r: Option<u64>)
    requires
        from <= to <= chars.len(),
    ensures
        match r {
            Some(n) => chars@.subrange(from as int, to as int) == decimal(n as nat),
            None => forall|n: nat|
                n <= u64::MAX ==> chars@.subrange(from as int, to as int) != #[trigger] decimal(n),
        },
{
    let ghost s = chars@.subrange(from as int, to as int);
    if from == to {
        assert forall|n: nat| s != #[trigger] decimal(n) by {
            lemma_decimal_is_numeral(n);
        }
        return None;
    }
    if to - from > 1 && chars[from] == '0' {
        assert(s[0] == '0');
        assert forall|n: nat| s != #[trigger] decimal(n) by {
            lemma_decimal_is_numeral(n);
        }
        return None;
    }
    let mut acc: u64 = 0;
    let mut i: usize = from;
    while i < to
        invariant
            from <= i <= to <= chars.len(),
            s == chars@.subrange(from as int, to as int),
            forall|j: int| 0 <= j < i - from ==> is_digit(#[trigger] s[j]),
            acc == numeral_value(s.take(i - from)),
        decreases to - i,
    {
        let c = chars[i];
        assert(c == s[i - from]);
        if !(c >= '0' && c <= '9') {
            assert forall|n: nat| s != #[trigger] decimal(n) by {
                lemma_decimal_is_numeral(n);
            }
            return None;
        }
        let d: u64 = (c as u32 - '0' as u32) as u64;
        assert(d == digit_value(c));
        let ghost next = s.take(i - from + 1);
        assert(next.drop_last() =~= s.take(i - from));
        assert(next.last() == c);
        assert(numeral_value(next) == acc * 10 + d);
        if acc > (u64::MAX - d) / 10 {
            proof {
                assert(numeral_value(next) > u64::MAX);
                assert forall|n: nat| n <= u64::MAX implies s != #[trigger] decimal(n) by {
                    lemma_decimal_is_numeral(n);
                    if s == decimal(n) {
                        lemma_numeral_value_prefix(s, i - from + 1);
                    }
                }
            }
            return None;
        }
        acc = acc * 10 + d;
        i += 1;
    }
    proof {
        assert(s.take(to - from) =~= s);
        assert(is_numeral(s));
        lemma_numeral_is_decimal(s);
    }
    Some(acc)
}

/// Whether `c` carries the Unicode `White_Space` property.
pub open spec fn is_space(c: char) -> bool {
    let p = c as int;
    ||| 0x09 <= p <= 0x0D
    ||| p == 0x20
    ||| p == 0x85
    ||| p == 0xA0
    ||| p == 0x1680
    ||| 0x2000 <= p <= 0x200A
    ||| p == 0x2028
    ||| p == 0x2029
    ||| p == 0x202F
    ||| p == 0x205F
    ||| p == 0x3000
}

/// Whether `c` separates words.
pub fn is_whitespace(c: char) -> (r: bool)
    ensures
        r == is_space(c),
{
    let p: u32 = c as u32;
    (0x09 <= p && p <= 0x0D) || p == 0x20 || p == 0x85 || p == 0xA0 || p == 0x1680 || (0x2000 <= p
        && p <= 0x200A) || p == 0x2028 || p == 0x2029 || p == 0x202F || p == 0x205F || p == 0x3000
}

/// The number of whitespace characters at the start of `s`.
pub open spec fn leading_spaces(s: Seq<char>) -> nat
    decreases s.len(),
{
    if s.len() > 0 && is_space(s[0]) {
        1 + leading_spaces(s.drop_first())
    } else {
        0
    }
}

/// The number of non-whitespace characters at the start of `s`.
pub open spec fn leading_word(s: Seq<char>) -> nat
    decreases s.len(),
{
    if s.len() > 0 && !is_space(s[0]) {
        1 + leading_word(s.drop_first())
    } else {
        0
    }
}

/// The maximal runs of non-whitespace characters of `s`, in order.
pub open spec fn words(s: Seq<char>) -> Seq<Seq<char>>
    decreases s.len(),
{
    let start = leading_spaces(s) as int;
    if start >= s.len() {
        Seq::empty()
    } else {
        let rest = s.skip(start);
        let n = leading_word(rest) as int;
        if 0 < n <= rest.len() {
            seq![rest.take(n)] + words(rest.skip(n))
        } else {
            Seq::empty()
        }
    }
}

/// `leading_spaces` counts exactly the whitespace before the first other character.
pub proof fn lemma_leading_spaces(s: Seq<char>, k: int)
    requires
        0 <= k <= s.len(),
        forall|i: int| 0 <= i < k ==> is_space(#[trigger] s[i]),
        k < s.len() ==> !is_space(s[k]),
    ensures
        leading_spaces(s) == k,
    decreases k,
{
    if k > 0 {
        let t = s.drop_first();
        assert forall|i: int| 0 <= i < k - 1 implies is_space(#[trigger] t[i]) by {
            assert(t[i] == s[i + 1]);
        }
        if k < s.len() {
            assert(t[k - 1] == s[k]);
        }
        lemma_leading_spaces(t, k - 1);
    }
}

/// `leading_word` counts exactly the characters before the first whitespace.
pub proof fn lemma_leading_word(s: Seq<char>, k: int)
    requires
        0 <= k <= s.len(),
        forall|i: int| 0 <= i < k ==> !is_space(#[trigger] s[i]),
        k < s.len() ==> is_space(s[k]),
    ensures
        leading_word(s) == k,
    decreases k,
{
    if k > 0 {
        let t = s.drop_first();
        assert forall|i: int| 0 <= i < k - 1 implies !is_space(#[trigger] t[i]) by {
            assert(t[i] == s[i + 1]);
        }
        if k < s.len() {
            assert(t[k - 1] == s[k]);
        }
        lemma_leading_word(t, k - 1);
    }
}

/// Every word is non-empty and free of whitespace.
pub proof fn lemma_words_are_solid(s: Seq<char>)
    ensures
        forall|w: int|
            0 <= w < words(s).len() ==> (#[trigger] words(s)[w]).len() > 0 && forall|i: int|
                0 <= i < words(s)[w].len() ==> !is_space(#[trigger] words(s)[w][i]),
    decreases s.len(),
{
    let start = leading_spaces(s) as int;
    if start < s.len() {
        let rest = s.skip(start);
        let n = leading_word(rest) as int;
        if 0 < n <= rest.len() {
            lemma_words_are_solid(rest.skip(n));
            lemma_word_run(rest, n);
            let tail = words(rest.skip(n));
            assert forall|w: int| 0 <= w < words(s).len() implies (#[trigger] words(s)[w]).len()
                > 0 && forall|i: int|
                0 <= i < words(s)[w].len() ==> !is_space(#[trigger] words(s)[w][i]) by {
                if w == 0 {
                    assert(words(s)[0] == rest.take(n));
                } else {
                    assert(words(s)[w] == tail[w - 1]);
                }
            }
        }
    }
}

/// The first `leading_word` characters of a sequence are not whitespace.
pub proof fn lemma_word_run(s: Seq<char>, n: int)
    requires
        n == leading_word(s),
    ensures
        0 <= n <= s.len(),
        forall|i: int| 0 <= i < n ==> !is_space(#[trigger] s[i]),
        n < s.len() ==> is_space(s[n]),
    decreases s.len(),
{
    if s.len() > 0 && !is_space(s[0]) {
        let t = s.drop_first();
        lemma_word_run(t, n - 1);
        assert forall|i: int| 0 <= i < n implies !is_space(#[trigger] s[i]) by {
            if i > 0 {
                assert(s[i] == t[i - 1]);
            }
        }
        if n < s.len() {
            assert(s[n] == t[n - 1]);
        }
    }
}

/// Splits `s` at whitespace into its words.
pub fn split_words(s: &Vec<char>) -> (out: Vec<String>)
    ensures
        out@.len() == words(s@).len(),
        forall|w: int| 0 <= w < out@.len() ==> (#[trigger] out@[w])@ == words(s@)[w],
{
    let mut out: Vec<String> = Vec::new();
    let ghost mut done: Seq<Seq<char>> = Seq::empty();
    let mut i: usize = 0;
    proof {
        assert(s@.skip(0) =~= s@);
        assert(done + words(s@) =~= words(s@));
    }
    while i < s.len()
        invariant
            i <= s.len(),
            out@.len() == done.len(),
            forall|w: int| 0 <= w < out@.len() ==> (#[trigger] out@[w])@ == done[w],
            words(s@) == done + words(s@.skip(i as int)),
        decreases s.len() - i,
    {
        let ghost suffix = s@.skip(i as int);
        let mut start: usize = i;
        while start < s.len() && is_whitespace(s[start])
            invariant
                i <= start <= s.len(),
                forall|j: int| i <= j < start ==> is_space(#[trigger] s@[j]),
            decreases s.len() - start,
        {
            start += 1;
        }
        proof {
            assert forall|j: int| 0 <= j < start - i implies is_space(#[trigger] suffix[j]) by {
                assert(suffix[j] == s@[i + j]);
            }
            lemma_leading_spaces(suffix, start - i);
        }
        if start == s.len() {
            assert(words(suffix) =~= Seq::<Seq<char>>::empty());
            assert(words(s@) =~= done);
            assert(words(s@.skip(s@.len() as int)) =~= Seq::<Seq<char>>::empty());
            i = start;
        } else {
            let ghost rest = suffix.skip(start - i);
            assert(rest =~= s@.skip(start as int));
            let mut end: usize = start + 1;
            while end < s.len() && !is_whitespace(s[end])
                invariant
                    start < end <= s.len(),
                    forall|j: int| start <= j < end ==> !is_space(#[trigger] s@[j]),
                decreases s.len() - end,
            {
                end += 1;
            }
            proof {
                assert forall|j: int| 0 <= j < end - start implies !is_space(#[trigger] rest[j]) by {
                    assert(rest[j] == s@[start + j]);
                }
                lemma_leading_word(rest, end - start);
                assert(rest.take(end - start) =~= s@.subrange(start as int, end as int));
                assert(rest.skip(end - start) =~= s@.skip(end as int));
                assert(words(suffix) == seq![rest.take(end - start)] + words(
                    rest.skip(end - start),
                ));
                assert(done + (seq![rest.take(end - start)] + words(rest.skip(end - start)))
                    =~= done.push(rest.take(end - start)) + words(s@.skip(end as int)));
            }
            let word = string_of_range(s, start, end);
            out.push(word);
            proof {
                done = done.push(rest.take(end - start));
            }
            i = end;
        }
    }
    proof {
        assert(s@.skip(s@.len() as int) =~= Seq::<char>::empty());
        assert(words(Seq::<char>::empty()) =~= Seq::<Seq<char>>::empty());
        assert(words(s@) =~= done);
    }
    out
}

} // verus!
