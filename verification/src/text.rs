//! Text handling shared by the gateway and the miner: Unicode whitespace,
//! trimming, splitting, searching and decimal numbers, each specified over
//! the characters of the text.

use vstd::prelude::*;

verus! {

/// Whether `c` has the Unicode `White_Space` property (what
/// `char::is_whitespace` tests).
pub open spec fn is_unicode_whitespace(c: char) -> bool {
    let u = c as u32;
    (0x09 <= u && u <= 0x0D) || u == 0x20 || u == 0x85 || u == 0xA0 || u == 0x1680 || (0x2000 <= u
        && u <= 0x200A) || u == 0x2028 || u == 0x2029 || u == 0x202F || u == 0x205F || u == 0x3000
}

/// `s` without its leading whitespace.
pub open spec fn trim_start_spec(s: Seq<char>) -> Seq<char>
    decreases s.len(),
{
    if s.len() > 0 && is_unicode_whitespace(s[0]) {
        trim_start_spec(s.drop_first())
    } else {
        s
    }
}

/// `s` without its trailing whitespace.
pub open spec fn trim_end_spec(s: Seq<char>) -> Seq<char>
    decreases s.len(),
{
    if s.len() > 0 && is_unicode_whitespace(s.last()) {
        trim_end_spec(s.drop_last())
    } else {
        s
    }
}

/// `s` without its leading and trailing whitespace.
pub open spec fn trim_spec(s: Seq<char>) -> Seq<char> {
    trim_end_spec(trim_start_spec(s))
}

/// The pieces of `s` between the occurrences of `sep` (there is always at
/// least one piece, possibly empty).
pub open spec fn split_spec(s: Seq<char>, sep: char) -> Seq<Seq<char>>
    decreases s.len(),
{
    if s.len() == 0 {
        seq![Seq::<char>::empty()]
    } else {
        let init = split_spec(s.drop_last(), sep);
        if s.last() == sep {
            init.push(Seq::<char>::empty())
        } else {
            init.update(init.len() - 1, init.last().push(s.last()))
        }
    }
}

/// Whether the pattern `p` occurs in `s` at index `i`.
pub open spec fn occurs_at(s: Seq<char>, p: Seq<char>, i: int) -> bool {
    0 <= i && i + p.len() <= s.len() && s.subrange(i, i + p.len()) == p
}

/// Whether `i` is the index of the first occurrence of `p` in `s`.
pub open spec fn is_first_occurrence(s: Seq<char>, p: Seq<char>, i: int) -> bool {
    occurs_at(s, p, i) && forall|j: int| 0 <= j < i ==> !occurs_at(s, p, j)
}

/// Index of the first occurrence of `p` in `s`, if any.
pub open spec fn find_spec(s: Seq<char>, p: Seq<char>) -> Option<int> {
    if exists|i: int| occurs_at(s, p, i) {
        Some(choose|i: int| is_first_occurrence(s, p, i))
    } else {
        None
    }
}

/// Whether `i` is the index of the first occurrence of the character `c` in `s`.
pub open spec fn is_first_char(s: Seq<char>, c: char, i: int) -> bool {
    &&& 0 <= i < s.len()
    &&& s[i] == c
    &&& forall|j: int| 0 <= j < i ==> #[trigger] s[j] != c
}

/// Index of the first occurrence of the character `c` in `s`, if any.
pub open spec fn char_position(s: Seq<char>, c: char) -> Option<int> {
    if exists|i: int| 0 <= i < s.len() && #[trigger] s[i] == c {
        Some(choose|i: int| is_first_char(s, c, i))
    } else {
        None
    }
}

/// Index of the first occurrence of the character `c` in `s` (`str::find`
/// with a `char` pattern).
pub fn position_of_char(s: &Vec<char>, c: char) -> (r: Option<usize>)
    ensures
        r matches Some(i) ==> char_position(s@, c) == Some(i as int) && i < s@.len(),
        r is None ==> char_position(s@, c) is None,
{
    let n = s.len();
    let mut i: usize = 0;
    while i < n
        invariant
            n == s@.len(),
            i <= n,
            forall|j: int| 0 <= j < i ==> #[trigger] s@[j] != c,
        decreases n - i,
    {
        if s[i] == c {
            proof {
                assert(is_first_char(s@, c, i as int));
                let k = choose|k: int| is_first_char(s@, c, k);
                if k < i as int {
                    assert(s@[k] != c);
                } else if k > i as int {
                    assert(s@[i as int] != c);
                }
            }
            return Some(i);
        }
        i = i + 1;
    }
    None
}

/// The ASCII digit for `d` (0..10).
pub open spec fn digit_char(d: int) -> char {
    if d == 0 {
        '0'
    } else if d == 1 {
        '1'
    } else if d == 2 {
        '2'
    } else if d == 3 {
        '3'
    } else if d == 4 {
        '4'
    } else if d == 5 {
        '5'
    } else if d == 6 {
        '6'
    } else if d == 7 {
        '7'
    } else if d == 8 {
        '8'
    } else {
        '9'
    }
}

/// The decimal representation of `n`, without sign or leading zeros.
pub open spec fn decimal_chars(n: nat) -> Seq<char>
    decreases n,
{
    if n < 10 {
        seq![digit_char(n as int)]
    } else {
        decimal_chars(n / 10).push(digit_char((n % 10) as int))
    }
}

/// The ASCII bytes of the decimal representation of `n`.
pub open spec fn decimal_bytes(n: nat) -> Seq<u8>
    decreases n,
{
    if n < 10 {
        seq![(48 + n) as u8]
    } else {
        decimal_bytes(n / 10).push((48 + n % 10) as u8)
    }
}

/// Whether `b` is the usual decimal text of a number: one or more ASCII
/// digits, with no leading zero unless the number is 0 itself.
pub open spec fn is_canonical_decimal(b: Seq<u8>) -> bool {
    &&& b.len() >= 1
    &&& forall|i: int| 0 <= i < b.len() ==> 48 <= #[trigger] b[i] <= 57
    &&& (b.len() == 1 || b[0] != 48)
}

/// The number that the ASCII decimal digits `b` denote, most significant first.
pub open spec fn ascii_digits_value(b: Seq<u8>) -> nat
    decreases b.len(),
{
    if b.len() == 0 {
        0
    } else {
        ascii_digits_value(b.drop_last()) * 10 + (b.last() - 48) as nat
    }
}

/// The decimal text of `n` is made of digits without a leading zero and
/// reads back as `n`.
pub proof fn lemma_decimal_bytes_denotes(n: nat)
    ensures
        is_canonical_decimal(decimal_bytes(n)),
        ascii_digits_value(decimal_bytes(n)) == n,
    decreases n,
{
    let d = decimal_bytes(n);
    assert(ascii_digits_value(Seq::<u8>::empty()) == 0);
    if n < 10 {
        assert(d.drop_last() =~= Seq::<u8>::empty());
        assert(d.last() == 48 + n);
    } else {
        let q = decimal_bytes(n / 10);
        lemma_decimal_bytes_denotes(n / 10);
        assert(d.drop_last() =~= q);
        assert(d.last() == 48 + n % 10);
        assert(d[0] == q[0]);
        if q.len() == 1 {
            assert(q.drop_last() =~= Seq::<u8>::empty());
            assert(ascii_digits_value(q) == q[0] - 48);
        }
        assert forall|i: int| 0 <= i < d.len() implies 48 <= #[trigger] d[i] <= 57 by {
            if i < q.len() {
                assert(d[i] == q[i]);
            }
        }
    }
}

proof fn lemma_leading_digit_nonzero(b: Seq<u8>)
    requires
        b.len() >= 1,
        forall|i: int| 0 <= i < b.len() ==> 48 <= #[trigger] b[i] <= 57,
        b[0] != 48,
    ensures
        ascii_digits_value(b) >= 1,
    decreases b.len(),
{
    assert(ascii_digits_value(Seq::<u8>::empty()) == 0);
    if b.len() == 1 {
        assert(b.drop_last() =~= Seq::<u8>::empty());
    } else {
        let c = b.drop_last();
        assert forall|i: int| 0 <= i < c.len() implies 48 <= #[trigger] c[i] <= 57 by {
            assert(c[i] == b[i]);
        }
        assert(48 <= b[b.len() - 1] <= 57);
        lemma_leading_digit_nonzero(c);
    }
}

/// Decimal text without leading zeros is unique: the only such text that
/// denotes `n` is `decimal_bytes(n)`.
pub proof fn lemma_canonical_decimal_unique(b: Seq<u8>, n: nat)
    requires
        is_canonical_decimal(b),
        ascii_digits_value(b) == n,
    ensures
        b == decimal_bytes(n),
    decreases b.len(),
{
    assert(ascii_digits_value(Seq::<u8>::empty()) == 0);
    if b.len() == 1 {
        assert(b.drop_last() =~= Seq::<u8>::empty());
        assert(48 <= b[0] <= 57);
        assert(n == b[0] - 48);
        assert(b =~= decimal_bytes(n));
    } else {
        let c = b.drop_last();
        assert forall|i: int| 0 <= i < c.len() implies 48 <= #[trigger] c[i] <= 57 by {
            assert(c[i] == b[i]);
        }
        assert(c[0] == b[0]);
        lemma_leading_digit_nonzero(c);
        let v = ascii_digits_value(c);
        let k = (b.last() - 48) as nat;
        assert(48 <= b[b.len() - 1] <= 57);
        assert(n == v * 10 + k && k < 10 && v >= 1);
        assert(n / 10 == v && n % 10 == k);
        lemma_canonical_decimal_unique(c, v);
        assert(b =~= c.push(b.last()));
        assert(b =~= decimal_bytes(n));
    }
}

/// Whether `c` is an ASCII decimal digit.
pub open spec fn is_digit(c: char) -> bool {
    '0' <= c && c <= '9'
}

/// The value of the decimal digits `d`.
pub open spec fn digits_value(d: Seq<char>) -> nat
    decreases d.len(),
{
    if d.len() == 0 {
        0
    } else {
        digits_value(d.drop_last()) * 10 + ((d.last() as u32) - 48) as nat
    }
}

/// The digits of an unsigned number text: everything after an optional
/// leading `+`.
pub open spec fn unsigned_digits(s: Seq<char>) -> Seq<char> {
    if s.len() > 0 && s[0] == '+' {
        s.drop_first()
    } else {
        s
    }
}

/// What parsing `s` as an unsigned integer no larger than `max` gives (the
/// rule of `u16::from_str` and `u32::from_str`): an optional `+`, then at
/// least one ASCII digit and nothing else, and a value that fits.
pub open spec fn parse_unsigned_spec(s: Seq<char>, max: nat) -> Option<nat> {
    let d = unsigned_digits(s);
    if d.len() > 0 && (forall|i: int| 0 <= i < d.len() ==> is_digit(#[trigger] d[i]))
        && digits_value(d) <= max {
        Some(digits_value(d))
    } else {
        None
    }
}

/// Whether `c` has the Unicode `White_Space` property.
pub fn is_whitespace(c: char) -> (b: bool)
    ensures
        b == is_unicode_whitespace(c),
{
    let u = c as u32;
    (0x09 <= u && u <= 0x0D) || u == 0x20 || u == 0x85 || u == 0xA0 || u == 0x1680 || (0x2000 <= u
        && u <= 0x200A) || u == 0x2028 || u == 0x2029 || u == 0x202F || u == 0x205F || u == 0x3000
}

/// The characters of `s`.
pub fn chars_of(s: &str) -> (v: Vec<char>)
    ensures
        v@ == s@,
{
    let n = s.unicode_len();
    let mut v: Vec<char> = Vec::new();
    let mut i: usize = 0;
    while i < n
        invariant
            n == s@.len(),
            i <= n,
            v@ == s@.take(i as int),
        decreases n - i,
    {
        v.push(s.get_char(i));
        i = i + 1;
        assert(v@ =~= s@.take(i as int));
    }
    assert(s@.take(n as int) =~= s@);
    v
}

proof fn lemma_trim_start_skip(s: Seq<char>, i: int)
    requires
        0 <= i < s.len(),
        is_unicode_whitespace(s[i]),
    ensures
        trim_start_spec(s.skip(i)) == trim_start_spec(s.skip(i + 1)),
{
    assert(s.skip(i).drop_first() =~= s.skip(i + 1));
}

proof fn lemma_trim_end_take(s: Seq<char>, j: int)
    requires
        0 < j <= s.len(),
        is_unicode_whitespace(s[j - 1]),
    ensures
        trim_end_spec(s.take(j)) == trim_end_spec(s.take(j - 1)),
{
    assert(s.take(j).drop_last() =~= s.take(j - 1));
}

/// Number of leading whitespace characters of `s`, such that dropping them
/// leaves `trim_start_spec(s)`.
fn leading_whitespace(s: &Vec<char>) -> (k: usize)
    ensures
        k <= s@.len(),
        s@.skip(k as int) == trim_start_spec(s@),
{
    let n = s.len();
    let mut i: usize = 0;
    assert(s@.skip(0) =~= s@);
    while i < n && is_whitespace(s[i])
        invariant
            n == s@.len(),
            i <= n,
            trim_start_spec(s@.skip(i as int)) == trim_start_spec(s@),
        decreases n - i,
    {
        proof {
            lemma_trim_start_skip(s@, i as int);
        }
        i = i + 1;
    }
    proof {
        let t = s@.skip(i as int);
        if t.len() > 0 {
            assert(t[0] == s@[i as int]);
        }
    }
    i
}

/// The number of characters of `s` that remain once its trailing whitespace
/// is dropped.
fn trimmed_end(s: &Vec<char>) -> (k: usize)
    ensures
        k <= s@.len(),
        s@.take(k as int) == trim_end_spec(s@),
{
    let mut j: usize = s.len();
    assert(s@.take(j as int) =~= s@);
    while j > 0 && is_whitespace(s[j - 1])
        invariant
            j <= s@.len(),
            trim_end_spec(s@.take(j as int)) == trim_end_spec(s@),
        decreases j,
    {
        proof {
            lemma_trim_end_take(s@, j as int);
        }
        j = j - 1;
    }
    proof {
        let t = s@.take(j as int);
        if t.len() > 0 {
            assert(t.last() == s@[j - 1]);
        }
    }
    j
}

/// `s` without its leading whitespace (`str::trim_start`).
pub fn trim_start(s: &str) -> (r: String)
    ensures
        r@ == trim_start_spec(s@),
{
    let cs = chars_of(s);
    let k = leading_whitespace(&cs);
    String::from_str(s.substring_char(k, cs.len()))
}

/// `s` without its leading and trailing whitespace (`str::trim`).
pub fn trim(s: &str) -> (r: String)
    ensures
        r@ == trim_spec(s@),
{
    let started = trim_start(s);
    let cs = chars_of(started.as_str());
    let k = trimmed_end(&cs);
    String::from_str(started.as_str().substring_char(0, k))
}

proof fn lemma_split_step(s: Seq<char>, sep: char, i: int)
    requires
        0 <= i < s.len(),
    ensures
        split_spec(s.take(i + 1), sep) == (if s[i] == sep {
            split_spec(s.take(i), sep).push(Seq::<char>::empty())
        } else {
            let init = split_spec(s.take(i), sep);
            init.update(init.len() - 1, init.last().push(s[i]))
        }),
{
    assert(s.take(i + 1).drop_last() =~= s.take(i));
}

proof fn lemma_split_nonempty(s: Seq<char>, sep: char)
    ensures
        split_spec(s, sep).len() >= 1,
    decreases s.len(),
{
    if s.len() > 0 {
        lemma_split_nonempty(s.drop_last(), sep);
    }
}

/// The pieces of `s` between the occurrences of `sep` (`str::split`).
pub fn split(s: &str, sep: char) -> (pieces: Vec<String>)
    ensures
        pieces@.len() == split_spec(s@, sep).len(),
        forall|i: int| 0 <= i < pieces@.len() ==> #[trigger] pieces@[i]@ == split_spec(s@, sep)[i],
{
    let cs = chars_of(s);
    let n = cs.len();
    let mut pieces: Vec<String> = Vec::new();
    let mut start: usize = 0;
    let mut i: usize = 0;
    assert(s@.take(0) =~= Seq::<char>::empty());
    assert(s@.subrange(0, 0) =~= Seq::<char>::empty());
    while i < n
        invariant
            n == s@.len(),
            cs@ == s@,
            start <= i <= n,
            split_spec(s@.take(i as int), sep).len() == pieces@.len() + 1,
            forall|k: int|
                0 <= k < pieces@.len() ==> #[trigger] pieces@[k]@ == split_spec(
                    s@.take(i as int),
                    sep,
                )[k],
            split_spec(s@.take(i as int), sep).last() == s@.subrange(start as int, i as int),
        decreases n - i,
    {
        proof {
            lemma_split_step(s@, sep, i as int);
            lemma_split_nonempty(s@.take(i as int), sep);
        }
        if cs[i] == sep {
            pieces.push(String::from_str(s.substring_char(start, i)));
            start = i + 1;
            assert(s@.subrange(start as int, i + 1) =~= Seq::<char>::empty());
        } else {
            assert(s@.subrange(start as int, i + 1) =~= s@.subrange(start as int, i as int).push(
                s@[i as int],
            ));
        }
        i = i + 1;
    }
    pieces.push(String::from_str(s.substring_char(start, n)));
    assert(s@.take(n as int) =~= s@);
    pieces
}

/// Index of the first occurrence of `p` in `s` (`str::find`).
pub fn find(s: &Vec<char>, p: &Vec<char>) -> (r: Option<usize>)
    ensures
        r matches Some(i) ==> i as int == find_spec(s@, p@)->Some_0 && find_spec(s@, p@) is Some
            && occurs_at(s@, p@, i as int),
        r is None ==> find_spec(s@, p@) is None,
{
    let n = s.len();
    let m = p.len();
    if m > n {
        assert forall|i: int| !occurs_at(s@, p@, i) by {}
        return None;
    }
    let mut i: usize = 0;
    while i <= n - m
        invariant
            n == s@.len(),
            m == p@.len(),
            m <= n,
            i <= n - m + 1,
            forall|j: int| 0 <= j < i ==> !occurs_at(s@, p@, j),
        decreases n - m + 1 - i,
    {
        let mut k: usize = 0;
        while k < m && s[i + k] == p[k]
            invariant
                n == s@.len(),
                m == p@.len(),
                m <= n,
                i <= n - m,
                k <= m,
                forall|t: int| 0 <= t < k ==> s@[i + t] == p@[t],
            decreases m - k,
        {
            k = k + 1;
        }
        if k == m {
            proof {
                assert(s@.subrange(i as int, i + m) =~= p@);
                assert(is_first_occurrence(s@, p@, i as int));
                let c = choose|j: int| is_first_occurrence(s@, p@, j);
                assert(c == i as int) by {
                    if c < i as int {
                        assert(!occurs_at(s@, p@, c));
                    } else if c > i as int {
                        assert(!occurs_at(s@, p@, i as int));
                    }
                }
            }
            return Some(i);
        }
        proof {
            assert(!occurs_at(s@, p@, i as int)) by {
                if occurs_at(s@, p@, i as int) {
                    assert(s@.subrange(i as int, i + m)[k as int] == p@[k as int]);
                }
            }
        }
        i = i + 1;
    }
    assert forall|j: int| !occurs_at(s@, p@, j) by {
        if occurs_at(s@, p@, j) {
            assert(j < i);
        }
    }
    None
}

fn digit_str(d: u64) -> (s: &'static str)
    requires
        d < 10,
    ensures
        s@ == seq![digit_char(d as int)],
{
    proof {
        reveal_strlit("0");
        reveal_strlit("1");
        reveal_strlit("2");
        reveal_strlit("3");
        reveal_strlit("4");
        reveal_strlit("5");
        reveal_strlit("6");
        reveal_strlit("7");
        reveal_strlit("8");
        reveal_strlit("9");
    }
    if d == 0 {
        "0"
    } else if d == 1 {
        "1"
    } else if d == 2 {
        "2"
    } else if d == 3 {
        "3"
    } else if d == 4 {
        "4"
    } else if d == 5 {
        "5"
    } else if d == 6 {
        "6"
    } else if d == 7 {
        "7"
    } else if d == 8 {
        "8"
    } else {
        "9"
    }
}

/// Appends the decimal representation of `n` to `out`.
pub fn append_decimal(out: &mut String, n: u64)
    ensures
        final(out)@ == old(out)@ + decimal_chars(n as nat),
    decreases n,
{
    if n >= 10 {
        append_decimal(out, n / 10);
    }
    out.append(digit_str(n % 10));
    proof {
        assert(decimal_chars(n as nat) == if n < 10 {
            seq![digit_char(n as int)]
        } else {
            decimal_chars((n / 10) as nat).push(digit_char((n % 10) as int))
        });
        if n >= 10 {
            assert(old(out)@ + decimal_chars((n / 10) as nat) + seq![digit_char((n % 10) as int)]
                =~= old(out)@ + decimal_chars(n as nat));
        } else {
            assert(old(out)@ + seq![digit_char((n % 10) as int)] =~= old(out)@ + decimal_chars(
                n as nat,
            ));
        }
    }
}

/// Appends the ASCII bytes of the decimal representation of `n` to `out`.
pub fn push_decimal_bytes(out: &mut Vec<u8>, n: u64)
    ensures
        final(out)@ == old(out)@ + decimal_bytes(n as nat),
    decreases n,
{
    if n >= 10 {
        push_decimal_bytes(out, n / 10);
    }
    out.push(48 + (n % 10) as u8);
    proof {
        if n >= 10 {
            assert(old(out)@ + decimal_bytes((n / 10) as nat) + seq![(48 + n % 10) as u8]
                =~= old(out)@ + decimal_bytes(n as nat));
        } else {
            assert(old(out)@ + seq![(48 + n % 10) as u8] =~= old(out)@ + decimal_bytes(n as nat));
        }
    }
}

/// Parses `s` as an unsigned integer no larger than `max`, by the rule of
/// `u16::from_str` and `u32::from_str`.
pub fn parse_unsigned(s: &str, max: u64) -> (r: Option<u64>)
    ensures
        r matches Some(v) ==> parse_unsigned_spec(s@, max as nat) == Some(v as nat),
        r is None ==> parse_unsigned_spec(s@, max as nat) is None,
{
    let cs = chars_of(s);
    let n = cs.len();
    let start: usize = if n > 0 && cs[0] == '+' {
        1
    } else {
        0
    };
    let ghost d = unsigned_digits(s@);
    assert(d =~= s@.skip(start as int));
    if start == n {
        return None;
    }
    let mut acc: u64 = 0;
    let mut too_big = false;
    let mut i: usize = start;
    assert(d.take(0) =~= Seq::<char>::empty());
    while i < n
        invariant
            n == s@.len(),
            cs@ == s@,
            d == s@.skip(start as int),
            d == unsigned_digits(s@),
            start <= i <= n,
            forall|j: int| 0 <= j < i - start ==> is_digit(#[trigger] d[j]),
            too_big ==> digits_value(d.take(i - start)) > max,
            !too_big ==> acc == digits_value(d.take(i - start)) && acc <= max,
        decreases n - i,
    {
        let c = cs[i];
        if !('0' <= c && c <= '9') {
            proof {
                assert(!is_digit(d[i - start]));
            }
            return None;
        }
        let digit = (c as u32 - 48) as u64;
        proof {
            assert(d.take(i - start + 1).drop_last() =~= d.take(i - start));
            assert(d.take(i - start + 1).last() == c);
        }
        if !too_big {
            if acc <= max / 10 {
                assert(acc * 10 <= max) by (nonlinear_arith)
                    requires
                        acc <= max / 10,
                ;
                if digit <= max - acc * 10 {
                    acc = acc * 10 + digit;
                } else {
                    too_big = true;
                }
            } else {
                assert(acc * 10 > max) by (nonlinear_arith)
                    requires
                        acc > max / 10,
                ;
                too_big = true;
            }
        }
        i = i + 1;
    }
    assert(d.take(n - start) =~= d);
    if too_big {
        None
    } else {
        Some(acc)
    }
}

} // verus!
