use vstd::prelude::*;

verus! {

/// `String::push`: the documentation promises that the character is appended
/// at the end; the contract claims exactly that.
#[verifier::external_body]
pub(crate) fn push_char(s: &mut String, c: char)
    ensures
        final(s)@ == old(s)@.push(c),
{
    s.push(c);
}

/// The ASCII digit character of `d < 10`.
pub open spec fn digit_char(d: int) -> char {
    (48 + d) as char
}

/// The character `a`..`h` of file `f < 8`.
pub open spec fn file_char(f: int) -> char {
    (97 + f) as char
}

/// Builds a `String` from a sequence of characters.
pub fn string_of(chars: &Vec<char>) -> (r: String)
    ensures
        r@ == chars@,
{
    let mut s = String::new();
    let mut i: usize = 0;
    while i < chars.len()
        invariant
            i <= chars.len(),
            s@ == chars@.subrange(0, i as int),
        decreases chars.len() - i,
    {
        push_char(&mut s, chars[i]);
        i = i + 1;
        proof {
            assert(s@ =~= chars@.subrange(0, i as int));
        }
    }
    proof {
        assert(chars@.subrange(0, chars@.len() as int) =~= chars@);
    }
    s
}

/// The characters of a string slice, in order.
pub fn chars_of(s: &str) -> (r: Vec<char>)
    ensures
        r@ == s@,
{
    broadcast use vstd::string::axiom_spec_iter;
    let mut v: Vec<char> = Vec::new();
    for c in it: s.chars()
        invariant
            v@ == it.seq().take(it.index() as int),
    {
        v.push(c);
        proof {
            assert(v@ =~= it.seq().take(it.index() as int + 1));
        }
    }
    v
}

/// The pieces of `s` between the separators `sep`, empty pieces included, as
/// `str::split` with one character gives them.
pub open spec fn split_on(s: Seq<char>, sep: char) -> Seq<Seq<char>>
    decreases s.len(),
{
    if s.len() == 0 {
        seq![Seq::empty()]
    } else {
        let init = split_on(s.drop_last(), sep);
        if s.last() == sep {
            init.push(Seq::empty())
        } else {
            init.update(init.len() - 1, init.last().push(s.last()))
        }
    }
}

/// Splitting gives at least one piece.
pub proof fn lemma_split_nonempty(s: Seq<char>, sep: char)
    ensures
        split_on(s, sep).len() >= 1,
    decreases s.len(),
{
    if s.len() > 0 {
        lemma_split_nonempty(s.drop_last(), sep);
    }
}

/// Splitting gives at most one piece more than there are characters.
pub proof fn lemma_split_count(s: Seq<char>, sep: char)
    ensures
        split_on(s, sep).len() <= s.len() + 1,
    decreases s.len(),
{
    if s.len() > 0 {
        lemma_split_count(s.drop_last(), sep);
        lemma_split_nonempty(s.drop_last(), sep);
        let init = split_on(s.drop_last(), sep);
        assert(s.drop_last().len() == s.len() - 1);
        if s.last() == sep {
            assert(split_on(s, sep).len() == init.len() + 1);
        } else {
            assert(split_on(s, sep).len() == init.len());
        }
    }
}

/// The pieces of `s` between the separators `sep`.
pub fn split_chars(s: &Vec<char>, sep: char) -> (r: Vec<Vec<char>>)
    ensures
        r@.map_values(|v: Vec<char>| v@) == split_on(s@, sep),
{
    let mut parts: Vec<Vec<char>> = Vec::new();
    let mut cur: Vec<char> = Vec::new();
    let mut i: usize = 0;
    while i < s.len()
        invariant
            i <= s.len(),
            parts@.map_values(|v: Vec<char>| v@).push(cur@) == split_on(s@.take(i as int), sep),
        decreases s.len() - i,
    {
        let ghost before = parts@.map_values(|v: Vec<char>| v@).push(cur@);
        proof {
            assert(s@.take(i as int + 1).drop_last() =~= s@.take(i as int));
            lemma_split_nonempty(s@.take(i as int), sep);
        }
        let c = s[i];
        if c == sep {
            parts.push(cur);
            cur = Vec::new();
            proof {
                assert(parts@.map_values(|v: Vec<char>| v@).push(cur@) =~= before.push(Seq::empty()));
            }
        } else {
            cur.push(c);
            proof {
                assert(parts@.map_values(|v: Vec<char>| v@).push(cur@) =~= before.update(before.len() - 1,
                    before.last().push(c)));
            }
        }
        i = i + 1;
    }
    parts.push(cur);
    proof {
        assert(s@.take(s@.len() as int) =~= s@);
    }
    parts
}

/// The decimal digits of `n`, most significant first ("0" for zero).
pub open spec fn decimal(n: nat) -> Seq<char>
    decreases n,
{
    if n < 10 {
        seq![digit_char(n as int)]
    } else {
        decimal(n / 10).push(digit_char((n % 10) as int))
    }
}

/// Appends the decimal digits of `n`.
pub fn push_decimal(s: &mut String, n: u32)
    ensures
        final(s)@ == old(s)@ + decimal(n as nat),
    decreases n,
{
    if n >= 10 {
        push_decimal(s, n / 10);
    }
    let d = n % 10;
    let c = char_of_digit(d);
    push_char(s, c);
    proof {
        if n >= 10 {
            assert(old(s)@ + decimal(n as nat) =~= old(s)@ + decimal((n / 10) as nat) + seq![digit_char((n % 10) as int)]);
        } else {
            assert(old(s)@ + decimal(n as nat) =~= old(s)@ + seq![digit_char(n as int)]);
        }
    }
}

/// Whether two strings hold the same characters.
pub fn str_eq(a: &str, b: &str) -> (r: bool)
    ensures
        r == (a@ == b@),
{
    let x = chars_of(a);
    let y = chars_of(b);
    if x.len() != y.len() {
        return false;
    }
    let mut i: usize = 0;
    while i < x.len()
        invariant
            x@ == a@,
            y@ == b@,
            x@.len() == y@.len(),
            0 <= i <= x@.len(),
            forall|j: int| 0 <= j < i ==> x@[j] == y@[j],
        decreases x@.len() - i,
    {
        if x[i] != y[i] {
            return false;
        }
        i += 1;
    }
    proof {
        assert(x@ =~= y@);
    }
    true
}

/// Appends the decimal digits of `n`.
pub fn push_decimal_u64(s: &mut String, n: u64)
    ensures
        final(s)@ == old(s)@ + decimal(n as nat),
    decreases n,
{
    if n >= 10 {
        push_decimal_u64(s, n / 10);
    }
    let d = (n % 10) as u32;
    let c = char_of_digit(d);
    push_char(s, c);
    proof {
        if n >= 10 {
            assert(old(s)@ + decimal(n as nat) =~= old(s)@ + decimal((n / 10) as nat) + seq![digit_char((n % 10) as int)]);
        } else {
            assert(old(s)@ + decimal(n as nat) =~= old(s)@ + seq![digit_char(n as int)]);
        }
    }
}

/// The decimal text of an integer, with a minus sign when it is negative.
pub open spec fn signed_decimal(n: int) -> Seq<char> {
    if n < 0 {
        seq!['-'] + decimal((-n) as nat)
    } else {
        decimal(n as nat)
    }
}

/// Appends the decimal text of `n`, with a minus sign when it is negative.
pub fn push_signed(s: &mut String, n: i32)
    ensures
        final(s)@ == old(s)@ + signed_decimal(n as int),
{
    if n < 0 {
        push_char(s, '-');
        let m: u64 = (0i64 - n as i64) as u64;
        push_decimal_u64(s, m);
        proof {
            assert(final(s)@ =~= old(s)@ + signed_decimal(n as int));
        }
    } else {
        push_decimal_u64(s, n as u64);
    }
}

/// The ASCII digit of `d < 10`.
pub fn char_of_digit(d: u32) -> (c: char)
    requires
        d < 10,
    ensures
        c == digit_char(d as int),
{
    if d == 0 { '0' } else if d == 1 { '1' } else if d == 2 { '2' } else if d == 3 { '3' } else if d == 4 { '4' }
    else if d == 5 { '5' } else if d == 6 { '6' } else if d == 7 { '7' } else if d == 8 { '8' } else { '9' }
}

/// The value of an ASCII digit, if `c` is one.
pub open spec fn digit_value(c: char) -> Option<u32> {
    if '0' <= c && c <= '9' {
        Some((c as u32 - '0' as u32) as u32)
    } else {
        None
    }
}

/// `char::to_digit` in base 10.
pub fn to_digit(c: char) -> (r: Option<u32>)
    ensures
        r == digit_value(c),
{
    if '0' <= c && c <= '9' {
        Some((c as u32) - ('0' as u32))
    } else {
        None
    }
}

/// The value of the digits `s[..k]` read as a decimal number.
pub open spec fn digits_value(s: Seq<char>, k: int) -> int
    decreases k,
{
    if k <= 0 {
        0
    } else {
        digits_value(s, k - 1) * 10 + digit_value(s[k - 1]).unwrap() as int
    }
}

/// Whether `s[from..]` holds only ASCII digits.
pub open spec fn all_digits(s: Seq<char>, from: int) -> bool {
    forall|i: int| from <= i < s.len() ==> (#[trigger] digit_value(s[i])) is Some
}

/// `str::parse::<u32>`: an optional `+`, then at least one digit, the value
/// fitting in 32 bits.
pub open spec fn parse_u32_spec(s: Seq<char>) -> Option<u32> {
    let start: int = if s.len() > 0 && s[0] == '+' { 1 } else { 0 };
    let digits = s.subrange(start, s.len() as int);
    if digits.len() > 0 && all_digits(digits, 0) && digits_value(digits, digits.len() as int) <= u32::MAX {
        Some(digits_value(digits, digits.len() as int) as u32)
    } else {
        None
    }
}

/// Parses an unsigned decimal number as `str::parse::<u32>` does.
pub fn parse_u32(s: &Vec<char>) -> (r: Option<u32>)
    ensures
        r == parse_u32_spec(s@),
{
    let start: usize = if s.len() > 0 && s[0] == '+' { 1 } else { 0 };
    let ghost digits = s@.subrange(start as int, s@.len() as int);
    if start >= s.len() {
        return None;
    }
    let mut value: u64 = 0;
    let mut i = start;
    while i < s.len()
        invariant
            start <= i <= s.len(),
            start < s.len(),
            start == (if s@.len() > 0 && s@[0] == '+' { 1int } else { 0int }),
            digits == s@.subrange(start as int, s@.len() as int),
            all_digits(digits.take(i - start), 0),
            value == digits_value(digits, i - start),
            value <= u32::MAX,
        decreases s.len() - i,
    {
        let d = to_digit(s[i]);
        match d {
            None => {
                proof {
                    assert(digit_value(digits[i - start]) is None);
                    assert(!all_digits(digits, 0));
                }
                return None;
            },
            Some(dv) => {
                proof {
                    assert(digits[i - start] == s@[i as int]);
                }
                let next = value * 10 + dv as u64;
                if next > 0xffff_ffff {
                    proof {
                        if all_digits(digits, 0) {
                            assert(all_digits(digits.take(i - start + 1), 0)) by {
                                assert forall|j: int| 0 <= j < digits.take(i - start + 1).len() implies (
                                #[trigger] digit_value(digits.take(i - start + 1)[j])) is Some by {
                                    assert(digits.take(i - start + 1)[j] == digits[j]);
                                }
                            }
                            assert(digits_value(digits, i - start + 1) == next);
                            lemma_digits_value_grows(digits, i - start + 1, digits.len() as int);
                        }
                    }
                    return None;
                }
                value = next;
                i = i + 1;
                proof {
                    assert(all_digits(digits.take(i - start), 0)) by {
                        assert forall|j: int| 0 <= j < digits.take(i - start).len() implies (#[trigger] digit_value(
                            digits.take(i - start)[j])) is Some by {
                            if j < i - start - 1 {
                                assert(digits.take(i - start)[j] == digits.take(i - start - 1)[j]);
                            }
                        }
                    }
                }
            },
        }
    }
    proof {
        assert(digits.take(digits.len() as int) =~= digits);
    }
    Some(value as u32)
}

/// The value of the digits of `s` from `start` on, when there is at least one,
/// all are digits and the value is at most `limit`.
pub open spec fn digits_read(s: Seq<char>, start: int, limit: int) -> Option<int> {
    let digits = s.subrange(start, s.len() as int);
    if digits.len() > 0 && all_digits(digits, 0) && digits_value(digits, digits.len() as int) <= limit {
        Some(digits_value(digits, digits.len() as int))
    } else {
        None
    }
}

/// Reads the digits of `s` from `start` on (see `digits_read`).
fn read_digits(s: &Vec<char>, start: usize, limit: u64) -> (r: Option<u64>)
    requires
        start <= s.len(),
    ensures
        r is None <==> digits_read(s@, start as int, limit as int) is None,
        r matches Some(v) ==> digits_read(s@, start as int, limit as int) == Some(v as int) && v <= limit,
{
    let ghost digits = s@.subrange(start as int, s@.len() as int);
    if start >= s.len() {
        return None;
    }
    let mut value: u64 = 0;
    let mut i = start;
    while i < s.len()
        invariant
            start <= i <= s.len(),
            start < s.len(),
            digits == s@.subrange(start as int, s@.len() as int),
            all_digits(digits.take(i - start), 0),
            value == digits_value(digits, i - start),
            value <= limit,
        decreases s.len() - i,
    {
        let d = to_digit(s[i]);
        match d {
            None => {
                proof {
                    assert(digit_value(digits[i - start]) is None);
                    assert(!all_digits(digits, 0));
                }
                return None;
            },
            Some(dv) => {
                proof {
                    assert(digits[i - start] == s@[i as int]);
                }
                let next: u128 = value as u128 * 10 + dv as u128;
                if next > limit as u128 {
                    proof {
                        if all_digits(digits, 0) {
                            assert(all_digits(digits.take(i - start + 1), 0)) by {
                                assert forall|j: int| 0 <= j < digits.take(i - start + 1).len() implies (
                                #[trigger] digit_value(digits.take(i - start + 1)[j])) is Some by {
                                    assert(digits.take(i - start + 1)[j] == digits[j]);
                                }
                            }
                            assert(digits_value(digits, i - start + 1) == next);
                            lemma_digits_value_grows(digits, i - start + 1, digits.len() as int);
                        }
                    }
                    return None;
                }
                value = next as u64;
                i = i + 1;
                proof {
                    assert(all_digits(digits.take(i - start), 0)) by {
                        assert forall|j: int| 0 <= j < digits.take(i - start).len() implies (#[trigger] digit_value(
                            digits.take(i - start)[j])) is Some by {
                            if j < i - start - 1 {
                                assert(digits.take(i - start)[j] == digits.take(i - start - 1)[j]);
                            }
                        }
                    }
                }
            },
        }
    }
    proof {
        assert(digits.take(digits.len() as int) =~= digits);
    }
    Some(value)
}

/// `str::parse::<u64>`: an optional `+`, then at least one digit, the value
/// fitting in 64 bits.
pub open spec fn parse_u64_spec(s: Seq<char>) -> Option<u64> {
    let start: int = if s.len() > 0 && s[0] == '+' { 1 } else { 0 };
    match digits_read(s, start, u64::MAX as int) {
        Some(v) => Some(v as u64),
        None => None,
    }
}

/// `str::parse::<i32>`: an optional sign, then at least one digit, the value
/// fitting in 32 bits with its sign.
pub open spec fn parse_i32_spec(s: Seq<char>) -> Option<i32> {
    if s.len() > 0 && s[0] == '-' {
        match digits_read(s, 1, 0x8000_0000) {
            Some(v) => Some((-v) as i32),
            None => None,
        }
    } else {
        let start: int = if s.len() > 0 && s[0] == '+' { 1 } else { 0 };
        match digits_read(s, start, 0x7fff_ffff) {
            Some(v) => Some(v as i32),
            None => None,
        }
    }
}

/// Parses an unsigned decimal number as `str::parse::<u64>` does.
pub fn parse_u64(s: &str) -> (r: Option<u64>)
    ensures
        r == parse_u64_spec(s@),
{
    let chars = chars_of(s);
    let start: usize = if chars.len() > 0 && chars[0] == '+' { 1 } else { 0 };
    read_digits(&chars, start, u64::MAX)
}

/// Parses a signed decimal number as `str::parse::<i32>` does.
pub fn parse_i32(s: &str) -> (r: Option<i32>)
    ensures
        r == parse_i32_spec(s@),
{
    let chars = chars_of(s);
    if chars.len() > 0 && chars[0] == '-' {
        match read_digits(&chars, 1, 0x8000_0000) {
            Some(v) => Some((0 - v as i64) as i32),
            None => None,
        }
    } else {
        let start: usize = if chars.len() > 0 && chars[0] == '+' { 1 } else { 0 };
        match read_digits(&chars, start, 0x7fff_ffff) {
            Some(v) => Some(v as i32),
            None => None,
        }
    }
}

/// Reading more digits never makes a number smaller.
proof fn lemma_digits_value_grows(s: Seq<char>, a: int, b: int)
    requires
        0 <= a <= b <= s.len(),
        all_digits(s.take(a), 0),
        forall|i: int| a <= i < b ==> (#[trigger] digit_value(s[i])) is Some,
    ensures
        digits_value(s, a) <= digits_value(s, b),
    decreases b - a,
{
    if a < b {
        lemma_digits_value_grows(s, a, b - 1);
        assert(digits_value(s, b) == digits_value(s, b - 1) * 10 + digit_value(s[b - 1]).unwrap() as int);
        assert(digits_value(s, b - 1) >= 0) by {
            lemma_digits_value_nonneg(s, b - 1);
        }
    }
}

proof fn lemma_digits_value_nonneg(s: Seq<char>, k: int)
    ensures
        digits_value(s, k) >= 0,
    decreases k,
{
    if k > 0 {
        lemma_digits_value_nonneg(s, k - 1);
    }
}

/// The number of bytes of the UTF-8 encoding of a character.
pub open spec fn utf8_len(c: char) -> int {
    if (c as u32) < 0x80 {
        1
    } else if (c as u32) < 0x800 {
        2
    } else if (c as u32) < 0x10000 {
        3
    } else {
        4
    }
}

/// The number of bytes of the UTF-8 encoding of `s[..k]`.
pub open spec fn utf8_len_of(s: Seq<char>, k: int) -> int
    decreases k,
{
    if k <= 0 {
        0
    } else {
        utf8_len_of(s, k - 1) + utf8_len(s[k - 1])
    }
}

/// The length in bytes of the UTF-8 encoding of a sequence of characters.
pub fn utf8_length(s: &Vec<char>) -> (r: usize)
    requires
        s@.len() < 0x1000_0000,
    ensures
        r == utf8_len_of(s@, s@.len() as int),
{
    let mut n: usize = 0;
    let mut i: usize = 0;
    while i < s.len()
        invariant
            i <= s.len(),
            s@.len() < 0x1000_0000,
            n == utf8_len_of(s@, i as int),
            n <= 4 * i,
        decreases s.len() - i,
    {
        let c = s[i] as u32;
        let l: usize = if c < 0x80 { 1 } else if c < 0x800 { 2 } else if c < 0x10000 { 3 } else { 4 };
        n = n + l;
        i = i + 1;
    }
    n
}

/// Appends the characters of `chars`.
pub fn push_chars(s: &mut String, chars: &Vec<char>)
    ensures
        final(s)@ == old(s)@ + chars@,
{
    let mut i: usize = 0;
    while i < chars.len()
        invariant
            i <= chars.len(),
            s@ == old(s)@ + chars@.take(i as int),
        decreases chars.len() - i,
    {
        push_char(s, chars[i]);
        i = i + 1;
        proof {
            assert(s@ =~= old(s)@ + chars@.take(i as int));
        }
    }
    proof {
        assert(chars@.take(chars@.len() as int) =~= chars@);
    }
}

/// The total length of the pieces `parts[..k]`.
pub open spec fn lens_sum(parts: Seq<Seq<char>>, k: int) -> int
    decreases k,
{
    if k <= 0 {
        0
    } else {
        lens_sum(parts, k - 1) + parts[k - 1].len()
    }
}

/// The pieces of a split are no longer, together, than the text.
pub proof fn lemma_split_lens(s: Seq<char>, sep: char)
    ensures
        forall|k: int| 0 <= k <= split_on(s, sep).len() ==> #[trigger] lens_sum(split_on(s, sep), k) <= s.len(),
{
    let parts = split_on(s, sep);
    lemma_split_total(s, sep);
    assert forall|k: int| 0 <= k <= parts.len() implies #[trigger] lens_sum(parts, k) <= s.len() by {
        lemma_lens_mono(parts, k, parts.len() as int);
    }
}

proof fn lemma_split_total(s: Seq<char>, sep: char)
    ensures
        lens_sum(split_on(s, sep), split_on(s, sep).len() as int) <= s.len(),
    decreases s.len(),
{
    let parts = split_on(s, sep);
    lemma_split_nonempty(s, sep);
    if s.len() == 0 {
        assert(lens_sum(parts, 1) == lens_sum(parts, 0) + parts[0].len());
    } else {
        let init = split_on(s.drop_last(), sep);
        lemma_split_nonempty(s.drop_last(), sep);
        lemma_split_total(s.drop_last(), sep);
        let n = init.len() as int;
        if s.last() == sep {
            lemma_lens_sum_same(parts, init, n);
        } else {
            lemma_lens_sum_same(parts, init, n - 1);
        }
    }
}

pub proof fn lemma_lens_mono(parts: Seq<Seq<char>>, k: int, n: int)
    requires
        0 <= k <= n,
    ensures
        lens_sum(parts, k) <= lens_sum(parts, n),
    decreases n - k,
{
    if k < n {
        lemma_lens_mono(parts, k, n - 1);
    }
}

proof fn lemma_lens_sum_same(parts: Seq<Seq<char>>, init: Seq<Seq<char>>, k: int)
    requires
        0 <= k <= parts.len(),
        k <= init.len(),
        forall|j: int| 0 <= j < k ==> parts[j] == init[j],
    ensures
        lens_sum(parts, k) == lens_sum(init, k),
    decreases k,
{
    if k > 0 {
        lemma_lens_sum_same(parts, init, k - 1);
    }
}

} // verus!
