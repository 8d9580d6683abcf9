//! Text handling: comparing, trimming, splitting, joining and printing numbers.
//!
//! Texts are modelled as sequences of Unicode scalar values.

use vstd::prelude::*;
use vstd::string::*;

verus! {

/// `String::push` appends the given `char` to the end of the text.
pub assume_specification[ std::string::String::push ](s: &mut std::string::String, c: char)
    ensures
        final(s)@ == old(s)@.push(c),
;

/// The characters with the Unicode property `White_Space`.
pub open spec fn is_space(c: char) -> bool {
    ||| '\u{9}' <= c <= '\u{d}'
    ||| c == '\u{20}'
    ||| c == '\u{85}'
    ||| c == '\u{a0}'
    ||| c == '\u{1680}'
    ||| '\u{2000}' <= c <= '\u{200a}'
    ||| c == '\u{2028}'
    ||| c == '\u{2029}'
    ||| c == '\u{202f}'
    ||| c == '\u{205f}'
    ||| c == '\u{3000}'
}

/// `s` without the white space it begins with.
pub open spec fn trimmed_start(s: Seq<char>) -> Seq<char>
    decreases s.len(),
{
    if s.len() > 0 && is_space(s[0]) {
        trimmed_start(s.drop_first())
    } else {
        s
    }
}

/// `s` without the white space it ends with.
pub open spec fn trimmed_end(s: Seq<char>) -> Seq<char>
    decreases s.len(),
{
    if s.len() > 0 && is_space(s.last()) {
        trimmed_end(s.drop_last())
    } else {
        s
    }
}

/// `s` without the white space it begins and ends with.
pub open spec fn trimmed(s: Seq<char>) -> Seq<char> {
    trimmed_end(trimmed_start(s))
}

/// Tells whether `c` is white space.
pub fn is_space_char(c: char) -> (r: bool)
    ensures
        r == is_space(c),
{
    ('\u{9}' <= c && c <= '\u{d}') || c == '\u{20}' || c == '\u{85}' || c == '\u{a0}' || c
        == '\u{1680}' || ('\u{2000}' <= c && c <= '\u{200a}') || c == '\u{2028}' || c == '\u{2029}'
        || c == '\u{202f}' || c == '\u{205f}' || c == '\u{3000}'
}

/// The characters of `s`, in order.
pub fn chars_of(s: &str) -> (r: Vec<char>)
    ensures
        r@ == s@,
{
    let mut out: Vec<char> = Vec::new();
    for c in it: s.chars()
        invariant
            it.seq() == s@,
            out@ == s@.take(it.index() as int),
    {
        out.push(c);
    }
    assert(s@.take(s@.len() as int) == s@);
    out
}

/// Tells whether two texts are the same.
pub fn same_text(a: &str, b: &str) -> (r: bool)
    ensures
        r == (a@ == b@),
{
    broadcast use vstd::utf8::encode_utf8_decode_utf8;

    let x: &[u8] = a.as_bytes();
    let y: &[u8] = b.as_bytes();
    if x.len() != y.len() {
        return false;
    }
    let mut i: usize = 0;
    while i < x.len()
        invariant
            x@ == vstd::utf8::encode_utf8(a@),
            y@ == vstd::utf8::encode_utf8(b@),
            x@.len() == y@.len(),
            i <= x@.len(),
            forall|j: int| 0 <= j < i ==> x@[j] == y@[j],
        decreases x@.len() - i,
    {
        if x[i] != y[i] {
            return false;
        }
        i += 1;
    }
    assert(x@ == y@);
    assert(vstd::utf8::decode_utf8(x@) == a@);
    assert(vstd::utf8::decode_utf8(y@) == b@);
    true
}

proof fn lemma_trimmed_start(s: Seq<char>, from: int)
    requires
        0 <= from <= s.len(),
        forall|i: int| 0 <= i < from ==> is_space(#[trigger] s[i]),
        from < s.len() ==> !is_space(s[from]),
    ensures
        trimmed_start(s) == s.skip(from),
    decreases from,
{
    if from > 0 {
        let t = s.drop_first();
        assert forall|i: int| 0 <= i < from - 1 implies is_space(#[trigger] t[i]) by {
            assert(t[i] == s[i + 1]);
        }
        lemma_trimmed_start(t, from - 1);
        assert(t.skip(from - 1) == s.skip(from));
    } else {
        assert(s.skip(0) == s);
    }
}

proof fn lemma_trimmed_end(s: Seq<char>, to: int)
    requires
        0 <= to <= s.len(),
        forall|i: int| to <= i < s.len() ==> is_space(#[trigger] s[i]),
        to > 0 ==> !is_space(s[to - 1]),
    ensures
        trimmed_end(s) == s.take(to),
    decreases s.len(),
{
    if to < s.len() {
        let t = s.drop_last();
        assert forall|i: int| to <= i < t.len() implies is_space(#[trigger] t[i]) by {
            assert(t[i] == s[i]);
        }
        assert(is_space(s[s.len() - 1]));
        lemma_trimmed_end(t, to);
        assert(t.take(to) == s.take(to));
    } else {
        assert(s.take(to) == s);
    }
}

/// A text that neither begins nor ends with white space has nothing to trim.
pub proof fn lemma_trimmed_is_same(s: Seq<char>)
    requires
        s.len() > 0 ==> !is_space(s[0]) && !is_space(s.last()),
    ensures
        trimmed(s) == s,
{
}

/// Tells whether all of `s` is white space.
pub open spec fn all_space(s: Seq<char>) -> bool {
    forall|i: int| 0 <= i < s.len() ==> is_space(#[trigger] s[i])
}

/// Where the trimmed part of `s` begins and ends.
proof fn lemma_trimmed_part(s: Seq<char>, from: int, to: int)
    requires
        0 <= from <= to <= s.len(),
        forall|i: int| 0 <= i < from ==> is_space(#[trigger] s[i]),
        forall|i: int| to <= i < s.len() ==> is_space(#[trigger] s[i]),
        from < to ==> !is_space(s[from]) && !is_space(s[to - 1]),
    ensures
        trimmed(s) == s.subrange(from, to),
{
    if from < to {
        lemma_trimmed_start(s, from);
        let t = s.skip(from);
        assert forall|i: int| to - from <= i < t.len() implies is_space(#[trigger] t[i]) by {
            assert(t[i] == s[from + i]);
        }
        assert(t[to - from - 1] == s[to - 1]);
        lemma_trimmed_end(t, to - from);
        assert(t.take(to - from) == s.subrange(from, to));
    } else {
        lemma_trimmed_start(s, s.len() as int);
        assert(s.skip(s.len() as int) == s.subrange(from, to));
    }
}

/// The trimmed part of `s` begins and ends with something else than white space, and stands between
/// white space.
pub proof fn lemma_trim_bounds(s: Seq<char>) -> (r: (int, int))
    ensures
        0 <= r.0 <= r.1 <= s.len(),
        forall|i: int| 0 <= i < r.0 ==> is_space(#[trigger] s[i]),
        forall|i: int| r.1 <= i < s.len() ==> is_space(#[trigger] s[i]),
        r.0 < r.1 ==> !is_space(s[r.0]) && !is_space(s[r.1 - 1]),
        r.0 == r.1 ==> r.0 == 0,
        trimmed(s) == s.subrange(r.0, r.1),
    decreases s.len(),
{
    if s.len() == 0 {
        lemma_trimmed_part(s, 0, 0);
        (0, 0)
    } else {
        let before = s.drop_last();
        let (from, to) = lemma_trim_bounds(before);
        assert(forall|i: int| 0 <= i < before.len() ==> #[trigger] before[i] == s[i]);
        let last = s.len() - 1;
        let r = if is_space(s[last]) {
            (from, to)
        } else if from < to {
            (from, last + 1)
        } else {
            (last, last + 1)
        };
        assert forall|i: int| 0 <= i < r.0 implies is_space(#[trigger] s[i]) by {
            assert(before[i] == s[i]);
        }
        assert forall|i: int| r.1 <= i < s.len() implies is_space(#[trigger] s[i]) by {
            if i < last {
                assert(before[i] == s[i]);
            }
        }
        lemma_trimmed_part(s, r.0, r.1);
        r
    }
}

/// White space around a text makes no difference to what is left of it when it is trimmed.
pub proof fn lemma_trimmed_padded(a: Seq<char>, s: Seq<char>, b: Seq<char>)
    requires
        all_space(a),
        all_space(b),
    ensures
        trimmed(a + s + b) == trimmed(s),
{
    let (from, to) = lemma_trim_bounds(s);
    let t = a + s + b;
    let n = a.len() as int;
    assert forall|i: int| 0 <= i < n + from implies is_space(#[trigger] t[i]) by {
        if i < n {
            assert(t[i] == a[i]);
        } else {
            assert(t[i] == s[i - n]);
        }
    }
    assert forall|i: int| n + to <= i < t.len() implies is_space(#[trigger] t[i]) by {
        if i < n + s.len() {
            assert(t[i] == s[i - n]);
        } else {
            assert(t[i] == b[i - n - s.len()]);
        }
    }
    if from < to {
        assert(t[n + from] == s[from] && t[n + to - 1] == s[to - 1]);
    }
    lemma_trimmed_part(t, n + from, n + to);
    assert(t.subrange(n + from, n + to) == s.subrange(from, to));
}

/// Around a character that is no white space, trimming takes off only what `a` begins with and what
/// `b` ends with.
pub proof fn lemma_trimmed_around(a: Seq<char>, c: char, b: Seq<char>)
    requires
        !is_space(c),
        trimmed(a).len() > 0,
    ensures
        exists|x: Seq<char>, y: Seq<char>|
            trimmed(a + seq![c] + b) == #[trigger] (x + seq![c] + y) && trimmed(x) == trimmed(a)
                && trimmed(y) == trimmed(b) && (forall|i: int|
                0 <= i < x.len() ==> a.contains(#[trigger] x[i])),
{
    let (from, end) = lemma_trim_bounds(a);
    let (start, to) = lemma_trim_bounds(b);
    let s = a + seq![c] + b;
    let n = a.len() as int;
    let x = a.skip(from);
    let y = b.take(to);
    assert forall|i: int| 0 <= i < from implies is_space(#[trigger] s[i]) by {
        assert(s[i] == a[i]);
    }
    assert forall|i: int| n + 1 + to <= i < s.len() implies is_space(#[trigger] s[i]) by {
        assert(s[i] == b[i - n - 1]);
    }
    assert(s[from] == a[from]);
    if to > 0 {
        assert(s[n + to] == b[to - 1]);
    } else {
        assert(s[n] == c);
    }
    lemma_trimmed_part(s, from, n + 1 + to);
    assert(s.subrange(from, n + 1 + to) == x + seq![c] + y);
    assert(a.take(from) + x + Seq::<char>::empty() == a);
    assert(all_space(a.take(from)));
    lemma_trimmed_padded(a.take(from), x, Seq::empty());
    assert(Seq::<char>::empty() + y + b.skip(to) == b);
    assert(all_space(b.skip(to)));
    lemma_trimmed_padded(Seq::empty(), y, b.skip(to));
    assert forall|i: int| 0 <= i < x.len() implies a.contains(#[trigger] x[i]) by {
        assert(x[i] == a[from + i]);
    }
}

/// The part of `s` between the white space it begins and ends with.
pub fn trim(s: &str) -> (r: &str)
    ensures
        r@ == trimmed(s@),
{
    let chars = chars_of(s);
    let mut from: usize = 0;
    while from < chars.len() && is_space_char(chars[from])
        invariant
            from <= chars@.len(),
            forall|i: int| 0 <= i < from ==> is_space(#[trigger] chars@[i]),
        decreases chars@.len() - from,
    {
        from += 1;
    }
    let mut to: usize = chars.len();
    while to > from && is_space_char(chars[to - 1])
        invariant
            from <= to <= chars@.len(),
            forall|i: int| to <= i < chars@.len() ==> is_space(#[trigger] chars@[i]),
        decreases to,
    {
        to -= 1;
    }
    proof {
        lemma_trimmed_part(s@, from as int, to as int);
    }
    s.substring_char(from, to)
}

/// Tells whether `s` holds nothing but white space.
pub fn is_blank(s: &str) -> (r: bool)
    ensures
        r == (trimmed(s@).len() == 0),
{
    trim(s).is_empty()
}

/// Tells whether `s` begins with `prefix`.
pub open spec fn begins_with(s: Seq<char>, prefix: Seq<char>) -> bool {
    prefix.len() <= s.len() && s.take(prefix.len() as int) == prefix
}

/// Tells whether `s` begins with `prefix`.
pub fn starts_with(s: &str, prefix: &str) -> (r: bool)
    ensures
        r == begins_with(s@, prefix@),
{
    let x = chars_of(s);
    let y = chars_of(prefix);
    if y.len() > x.len() {
        return false;
    }
    let mut i: usize = 0;
    while i < y.len()
        invariant
            x@ == s@,
            y@ == prefix@,
            i <= y@.len() <= x@.len(),
            forall|j: int| 0 <= j < i ==> x@[j] == y@[j],
        decreases y@.len() - i,
    {
        if x[i] != y[i] {
            assert(s@.take(prefix@.len() as int)[i as int] != prefix@[i as int]);
            return false;
        }
        i += 1;
    }
    assert(s@.take(prefix@.len() as int) == prefix@);
    true
}

/// The place where `c` first stands in `s`, or the length of `s`.
pub open spec fn first_place(s: Seq<char>, c: char) -> int
    decreases s.len(),
{
    if s.len() == 0 || s[0] == c {
        0
    } else {
        1 + first_place(s.drop_first(), c)
    }
}

/// `first_place` is where `c` stands with no `c` before it.
pub proof fn lemma_first_place(s: Seq<char>, c: char, at: int)
    requires
        0 <= at <= s.len(),
        forall|i: int| 0 <= i < at ==> #[trigger] s[i] != c,
        at < s.len() ==> s[at] == c,
    ensures
        first_place(s, c) == at,
    decreases at,
{
    if at > 0 {
        let t = s.drop_first();
        assert(s[0] != c);
        assert forall|i: int| 0 <= i < at - 1 implies #[trigger] t[i] != c by {
            assert(t[i] == s[i + 1]);
        }
        lemma_first_place(t, c, at - 1);
    }
}

/// What `first_place` finds.
pub proof fn lemma_place(s: Seq<char>, c: char)
    ensures
        0 <= first_place(s, c) <= s.len(),
        forall|i: int| 0 <= i < first_place(s, c) ==> #[trigger] s[i] != c,
        first_place(s, c) < s.len() ==> s[first_place(s, c)] == c,
    decreases s.len(),
{
    if s.len() > 0 && s[0] != c {
        let rest = s.drop_first();
        lemma_place(rest, c);
        assert forall|i: int| 0 <= i < first_place(s, c) implies #[trigger] s[i] != c by {
            if i > 0 {
                assert(s[i] == rest[i - 1]);
            }
        }
    }
}

/// The number of characters of `s` before the first `c`, all of them if there is none.
pub fn find_char(s: &Vec<char>, from: usize, c: char) -> (r: usize)
    requires
        from <= s@.len(),
    ensures
        r == from + first_place(s@.skip(from as int), c),
        from <= r <= s@.len(),
        r < s@.len() ==> s@[r as int] == c,
{
    let mut i: usize = from;
    while i < s.len() && s[i] != c
        invariant
            from <= i <= s@.len(),
            forall|j: int| from <= j < i ==> #[trigger] s@[j] != c,
        decreases s@.len() - i,
    {
        i += 1;
    }
    proof {
        let t = s@.skip(from as int);
        assert forall|j: int| 0 <= j < i - from implies #[trigger] t[j] != c by {
            assert(t[j] == s@[from + j]);
        }
        lemma_first_place(t, c, i - from);
    }
    i
}

/// The texts that a list of strings holds.
pub open spec fn texts(v: Seq<String>) -> Seq<Seq<char>> {
    v.map_values(|s: String| s@)
}

/// The texts of `parts` in order, with `sep` between each two neighbours.
pub open spec fn joined(parts: Seq<Seq<char>>, sep: Seq<char>) -> Seq<char>
    decreases parts.len(),
{
    if parts.len() == 0 {
        Seq::empty()
    } else if parts.len() == 1 {
        parts[0]
    } else {
        joined(parts.drop_last(), sep) + sep + parts.last()
    }
}

/// Joins `parts`, with `sep` between each two neighbours.
pub fn join(parts: &Vec<String>, sep: &str) -> (r: String)
    ensures
        r@ == joined(texts(parts@), sep@),
{
    let mut out = String::new();
    let mut i: usize = 0;
    assert(texts(parts@).take(0) == Seq::<Seq<char>>::empty());
    while i < parts.len()
        invariant
            i <= parts@.len(),
            out@ == joined(texts(parts@).take(i as int), sep@),
        decreases parts@.len() - i,
    {
        if i > 0 {
            out.append(sep);
        }
        out.append(parts[i].as_str());
        proof {
            let t = texts(parts@).take(i + 1);
            assert(t.drop_last() == texts(parts@).take(i as int));
            assert(t.last() == parts@[i as int]@);
            if i == 0 {
                assert(Seq::<char>::empty() + t[0] == t[0]);
            }
        }
        i += 1;
    }
    assert(texts(parts@).take(parts@.len() as int) == texts(parts@));
    out
}

/// The decimal digit of a number below ten.
pub open spec fn digit(n: nat) -> char {
    ('0' as u32 + n) as char
}

/// `n` in decimal, without leading zeros.
pub open spec fn decimal(n: nat) -> Seq<char>
    decreases n,
{
    if n < 10 {
        seq![digit(n)]
    } else {
        decimal(n / 10).push(digit(n % 10))
    }
}

/// `n` zeros.
pub open spec fn zeros(n: nat) -> Seq<char> {
    Seq::new(n, |i: int| '0')
}

/// `n` in decimal, with leading zeros up to `width` digits.
pub open spec fn padded(n: nat, width: nat) -> Seq<char> {
    let d = decimal(n);
    if d.len() >= width {
        d
    } else {
        zeros((width - d.len()) as nat) + d
    }
}

fn digit_char(n: u128) -> (r: char)
    requires
        n < 10,
    ensures
        r == digit(n as nat),
{
    (48u8 + n as u8) as char
}

/// Appends `n` in decimal.
pub fn push_decimal(out: &mut String, n: u128)
    ensures
        final(out)@ == old(out)@ + decimal(n as nat),
    decreases n,
{
    if n < 10 {
        out.push(digit_char(n));
        assert(out@ == old(out)@ + decimal(n as nat));
    } else {
        push_decimal(out, n / 10);
        out.push(digit_char(n % 10));
        assert(out@ == old(out)@ + decimal(n as nat));
    }
}

proof fn lemma_decimal_len(n: nat)
    ensures
        decimal(n).len() >= 1,
{
}

/// Appends `n` in decimal, with leading zeros up to `width` digits.
pub fn push_padded(out: &mut String, n: u64, width: usize)
    ensures
        final(out)@ == old(out)@ + padded(n as nat, width as nat),
{
    let mut digits: usize = 1;
    let mut rest: u64 = n;
    while rest >= 10 && digits < width
        invariant
            digits >= 1,
            digits <= width || digits == 1,
            decimal(n as nat).len() == decimal(rest as nat).len() + digits - 1,
        decreases rest,
    {
        rest = rest / 10;
        digits += 1;
    }
    proof {
        lemma_decimal_len(rest as nat);
    }
    let mut i: usize = digits;
    let ghost start = out@;
    assert(start + zeros(0) == start);
    while i < width
        invariant
            digits <= i,
            i <= width || i == digits,
            out@ == start + zeros((i - digits) as nat),
        decreases width - i,
    {
        out.push('0');
        i += 1;
        assert(out@ == start + zeros((i - digits) as nat));
    }
    push_decimal(out, n as u128);
    proof {
        assert(out@ == start + padded(n as nat, width as nat));
    }
}

/// A text begins with another exactly if it is that text with something behind it.
pub proof fn law_prefix(s: Seq<char>, prefix: Seq<char>)
    ensures
        begins_with(s, prefix) <==> exists|rest: Seq<char>| s == #[trigger] (prefix + rest),
{
    if begins_with(s, prefix) {
        assert(s == prefix + s.skip(prefix.len() as int));
    }
    if exists|rest: Seq<char>| s == #[trigger] (prefix + rest) {
        let rest = choose|rest: Seq<char>| s == #[trigger] (prefix + rest);
        assert(s.take(prefix.len() as int) == prefix);
    }
}

/// Trimming takes white space off both ends of a text and nothing else, and leaves none there.
pub proof fn law_trimming(s: Seq<char>)
    ensures
        exists|a: Seq<char>, b: Seq<char>|
            s == #[trigger] (a + trimmed(s) + b) && (forall|i: int|
                0 <= i < a.len() ==> is_space(#[trigger] a[i])) && (forall|i: int|
                0 <= i < b.len() ==> is_space(#[trigger] b[i])),
        trimmed(s).len() > 0 ==> !is_space(trimmed(s)[0]) && !is_space(
            trimmed(s)[trimmed(s).len() - 1],
        ),
        trimmed(s).len() == 0 <==> forall|i: int| 0 <= i < s.len() ==> is_space(#[trigger] s[i]),
{
    let (from, to) = lemma_trim_bounds(s);
    let a = s.take(from);
    let b = s.skip(to);
    assert(s == a + trimmed(s) + b);
    if from < to {
        assert(trimmed(s)[0] == s[from]);
        assert(trimmed(s)[to - from - 1] == s[to - 1]);
    }
}

/// A joined text is made of its parts in order: of no parts it is empty, of one part that part, and
/// of two lists what the two give, with the separator between.
pub proof fn law_joining(a: Seq<Seq<char>>, b: Seq<Seq<char>>, part: Seq<char>, sep: Seq<char>)
    ensures
        joined(Seq::empty(), sep).len() == 0,
        joined(seq![part], sep) == part,
        a.len() > 0 && b.len() > 0 ==> joined(a + b, sep) == joined(a, sep) + sep + joined(b, sep),
    decreases b.len(),
{
    if a.len() > 0 && b.len() > 0 {
        assert((a + b).drop_last() == a + b.drop_last());
        assert((a + b).last() == b.last());
        if b.len() == 1 {
            assert(a + b.drop_last() == a);
        } else {
            law_joining(a, b.drop_last(), part, sep);
            assert(joined(a + b, sep) == joined(a, sep) + sep + joined(b, sep));
        }
    }
}

/// The number that decimal digits stand for.
pub open spec fn number_of(digits: Seq<char>) -> int
    decreases digits.len(),
{
    if digits.len() == 0 {
        0
    } else {
        10 * number_of(digits.drop_last()) + (digits.last() as int - '0' as int)
    }
}

/// Tells whether a text holds only decimal digits.
pub open spec fn all_digits(s: Seq<char>) -> bool {
    forall|i: int| 0 <= i < s.len() ==> '0' <= #[trigger] s[i] <= '9'
}

/// A number in decimal is made of digits that stand for it, without leading zeros.
pub proof fn law_decimal(n: nat)
    ensures
        decimal(n).len() > 0,
        all_digits(decimal(n)),
        number_of(decimal(n)) == n,
        n > 0 ==> decimal(n)[0] != '0',
        n == 0 ==> decimal(n).len() == 1,
    decreases n,
{
    if n < 10 {
        assert(decimal(n).drop_last() == Seq::<char>::empty());
        assert(number_of(Seq::<char>::empty()) == 0);
        assert(decimal(n).last() as int == '0' as int + n);
    } else {
        law_decimal(n / 10);
        assert(decimal(n).last() as int == '0' as int + n % 10);
        assert(decimal(n).drop_last() == decimal(n / 10));
    }
}

proof fn lemma_leading_zeros(k: nat, s: Seq<char>)
    ensures
        number_of(zeros(k) + s) == number_of(s),
    decreases s.len(), k,
{
    if s.len() > 0 {
        lemma_leading_zeros(k, s.drop_last());
        assert((zeros(k) + s).drop_last() == zeros(k) + s.drop_last());
    } else if k > 0 {
        let less = (k - 1) as nat;
        lemma_leading_zeros(less, s);
        assert((zeros(k) + s).drop_last() == zeros(less) + s);
    } else {
        assert(zeros(k) + s == s);
    }
}

/// A padded number is made of digits that stand for it: as many as asked for, or as many as it takes
/// where that is more.
pub proof fn law_padding(n: nat, width: nat)
    ensures
        all_digits(padded(n, width)),
        number_of(padded(n, width)) == n,
        padded(n, width).len() >= width,
        padded(n, width).len() > width ==> padded(n, width)[0] != '0' || n == 0,
{
    law_decimal(n);
    if decimal(n).len() < width {
        lemma_leading_zeros((width - decimal(n).len()) as nat, decimal(n));
    }
}

/// White space is exactly what stands at these code points.
pub proof fn law_white_space(c: char)
    ensures
        is_space(c) <==> seq![
            9u32,
            10,
            11,
            12,
            13,
            32,
            133,
            160,
            5760,
            8192,
            8193,
            8194,
            8195,
            8196,
            8197,
            8198,
            8199,
            8200,
            8201,
            8202,
            8232,
            8233,
            8239,
            8287,
            12288,
        ].contains(c as u32),
{
    let points: Seq<u32> = seq![
        9u32,
        10,
        11,
        12,
        13,
        32,
        133,
        160,
        5760,
        8192,
        8193,
        8194,
        8195,
        8196,
        8197,
        8198,
        8199,
        8200,
        8201,
        8202,
        8232,
        8233,
        8239,
        8287,
        12288,
    ];
    let n = c as u32;
    if is_space(c) {
        let at: int = if n <= 13 {
            n - 9
        } else if n == 32 {
            5
        } else if n == 133 {
            6
        } else if n == 160 {
            7
        } else if n == 5760 {
            8
        } else if n <= 8202 {
            n - 8192 + 9
        } else if n == 8232 {
            20
        } else if n == 8233 {
            21
        } else if n == 8239 {
            22
        } else if n == 8287 {
            23
        } else {
            24
        };
        assert(points[at] == n);
    }
}

/// The texts of a list are what its strings hold, in order.
pub proof fn law_texts(v: Seq<String>, i: int)
    ensures
        texts(v).len() == v.len(),
        0 <= i < v.len() ==> texts(v)[i] == v[i]@,
{
}

} // verus!
