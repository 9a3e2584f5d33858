//! Reading the numbers that `.vox` scene attributes hold as text.
//!
//! Attribute values are strings such as `"12 -3 40"` (a translation) or `"36"`
//! (a packed rotation). They are split on single spaces and each piece is read
//! as a decimal integer, with the rules that Rust's `str::parse` documents for
//! integers: an optional sign followed by at least one ASCII digit, nothing
//! else, and a value inside the target type.
use vstd::prelude::*;
use vstd::string::StrSliceExecFns;

verus! {

pub open spec fn is_digit(c: char) -> bool {
    '0' <= c && c <= '9'
}

pub open spec fn digit_value(c: char) -> int {
    (c as int) - ('0' as int)
}

/// A non-empty run of ASCII digits.
pub open spec fn is_numeral(s: Seq<char>) -> bool {
    s.len() > 0 && forall|i: int| 0 <= i < s.len() ==> is_digit(#[trigger] s[i])
}

/// The value of a run of decimal digits, most significant first.
pub open spec fn digits_value(s: Seq<char>) -> int
    decreases s.len(),
{
    if s.len() == 0 {
        0
    } else {
        10 * digits_value(s.drop_last()) + digit_value(s.last())
    }
}

/// What `str::parse::<i32>` gives for `s`: an optional `+` or `-`, then digits,
/// with the value in the range of `i32`.
pub open spec fn spec_parse_i32(s: Seq<char>) -> Option<int> {
    if s.len() > 0 && s[0] == '-' {
        let body = s.drop_first();
        if is_numeral(body) && digits_value(body) <= 0x8000_0000 {
            Some(-digits_value(body))
        } else {
            None
        }
    } else {
        let body = if s.len() > 0 && s[0] == '+' { s.drop_first() } else { s };
        if is_numeral(body) && digits_value(body) <= 0x7fff_ffff {
            Some(digits_value(body))
        } else {
            None
        }
    }
}

/// What `str::parse::<u8>` gives for `s`: an optional `+`, then digits, with the
/// value at most 255 (a `-` is no digit, so it makes the text invalid).
pub open spec fn spec_parse_u8(s: Seq<char>) -> Option<int> {
    let body = if s.len() > 0 && s[0] == '+' { s.drop_first() } else { s };
    if is_numeral(body) && digits_value(body) <= 255 {
        Some(digits_value(body))
    } else {
        None
    }
}

/// The pieces of `s` between single spaces, as `str::split(" ")` yields them:
/// there is always one more piece than there are spaces, and pieces may be empty.
pub open spec fn split_spaces(s: Seq<char>) -> Seq<Seq<char>>
    decreases s.len(),
{
    if s.len() == 0 {
        seq![Seq::<char>::empty()]
    } else {
        let parts = split_spaces(s.drop_last());
        if s.last() == ' ' {
            parts.push(Seq::<char>::empty())
        } else {
            parts.update(parts.len() - 1, parts.last().push(s.last()))
        }
    }
}

pub proof fn lemma_split_spaces_nonempty(s: Seq<char>)
    ensures
        split_spaces(s).len() >= 1,
    decreases s.len(),
{
    if s.len() > 0 {
        lemma_split_spaces_nonempty(s.drop_last());
    }
}

proof fn lemma_digits_value_nonneg(s: Seq<char>)
    requires
        forall|i: int| 0 <= i < s.len() ==> is_digit(#[trigger] s[i]),
    ensures
        digits_value(s) >= 0,
    decreases s.len(),
{
    if s.len() > 0 {
        let p = s.drop_last();
        assert forall|i: int| 0 <= i < p.len() implies is_digit(#[trigger] p[i]) by {
            assert(p[i] == s[i]);
        }
        lemma_digits_value_nonneg(p);
    }
}

/// The digit character of `d`, for `0 <= d <= 9`.
pub open spec fn digit_char(d: int) -> char {
    (d + 48) as char
}

/// The decimal digits of a natural number, most significant first, without
/// leading zeros.
pub open spec fn digits_of(n: nat) -> Seq<char>
    decreases n,
{
    if n < 10 {
        seq![digit_char(n as int)]
    } else {
        digits_of((n / 10) as nat).push(digit_char((n % 10) as int))
    }
}

/// The decimal text of an integer, as Rust writes an `i32`: a `-` for a
/// negative value, then the digits.
pub open spec fn decimal(n: int) -> Seq<char> {
    if n < 0 {
        seq!['-'] + digits_of((-n) as nat)
    } else {
        digits_of(n as nat)
    }
}

/// A text without spaces.
pub open spec fn no_space(w: Seq<char>) -> bool {
    forall|i: int| 0 <= i < w.len() ==> #[trigger] w[i] != ' '
}

proof fn lemma_digits_of(n: nat)
    ensures
        is_numeral(digits_of(n)),
        digits_value(digits_of(n)) == n,
    decreases n,
{
    if n >= 10 {
        lemma_digits_of((n / 10) as nat);
        let p = digits_of((n / 10) as nat);
        let s = digits_of(n);
        assert(s.drop_last() =~= p);
        let d = (n % 10) as int;
        assert(s.last() == digit_char(d));
        assert(digit_value(digit_char(d)) == d);
        assert(n == 10 * (n / 10) + d);
        assert(digits_value(s) == 10 * digits_value(p) + d);
        assert forall|i: int| 0 <= i < s.len() implies is_digit(#[trigger] s[i]) by {
            if i < p.len() {
                assert(s[i] == p[i]);
            }
        }
    } else {
        let s = digits_of(n);
        assert(s.drop_last() =~= Seq::<char>::empty());
        assert(digits_value(Seq::<char>::empty()) == 0);
        assert(digit_value(digit_char(n as int)) == n);
    }
}

/// The decimal text of every `i32` reads back as that value.
pub proof fn lemma_decimal_reads_back(n: int)
    requires
        i32::MIN <= n <= i32::MAX,
    ensures
        spec_parse_i32(decimal(n)) == Some(n),
        no_space(decimal(n)),
        decimal(n).len() > 0,
{
    if n < 0 {
        let d = digits_of((-n) as nat);
        lemma_digits_of((-n) as nat);
        let s = decimal(n);
        assert(s[0] == '-');
        assert(s.drop_first() =~= d);
        assert forall|i: int| 0 <= i < s.len() implies #[trigger] s[i] != ' ' by {
            if i > 0 {
                assert(s[i] == d[i - 1]);
                assert(is_digit(d[i - 1]));
            }
        }
    } else {
        let d = digits_of(n as nat);
        lemma_digits_of(n as nat);
        assert(is_digit(d[0]));
        assert forall|i: int| 0 <= i < d.len() implies #[trigger] d[i] != ' ' by {
            assert(is_digit(d[i]));
        }
    }
}

proof fn lemma_split_word(s: Seq<char>, w: Seq<char>)
    requires
        no_space(w),
    ensures
        split_spaces(s + w) == split_spaces(s).update(
            split_spaces(s).len() - 1,
            split_spaces(s).last() + w,
        ),
    decreases w.len(),
{
    lemma_split_spaces_nonempty(s);
    let p = split_spaces(s);
    if w.len() == 0 {
        assert(s + w =~= s);
        assert(p.last() + w =~= p.last());
        assert(p.update(p.len() - 1, p.last()) =~= p);
    } else {
        let v = w.drop_last();
        assert(no_space(v)) by {
            assert forall|i: int| 0 <= i < v.len() implies #[trigger] v[i] != ' ' by {
                assert(v[i] == w[i]);
            }
        }
        lemma_split_word(s, v);
        assert((s + w).drop_last() =~= s + v);
        assert((s + w).last() == w.last());
        assert(w[w.len() - 1] != ' ');
        let q = p.update(p.len() - 1, p.last() + v);
        assert(q.last() == p.last() + v);
        assert((p.last() + v).push(w.last()) =~= p.last() + w);
        assert(q.update(q.len() - 1, q.last().push(w.last())) =~= p.update(p.len() - 1, p.last() + w));
    }
}

/// Words without spaces, joined by single spaces, split back into those words.
pub proof fn lemma_split_three_words(a: Seq<char>, b: Seq<char>, c: Seq<char>)
    requires
        no_space(a),
        no_space(b),
        no_space(c),
    ensures
        split_spaces(a + seq![' '] + b + seq![' '] + c) == seq![a, b, c],
{
    let e = Seq::<char>::empty();
    assert(split_spaces(e) == seq![e]);
    lemma_split_word(e, a);
    assert(e + a =~= a);
    assert(seq![e].update(0, e + a) =~= seq![a]);
    let s1 = a + seq![' '];
    assert(s1.drop_last() =~= a);
    assert(split_spaces(s1) =~= seq![a, e]);
    lemma_split_word(s1, b);
    assert(e + b =~= b);
    assert(seq![a, e].update(1, e + b) =~= seq![a, b]);
    let s2 = s1 + b + seq![' '];
    assert(s2.drop_last() =~= s1 + b);
    assert(split_spaces(s2) =~= seq![a, b, e]);
    lemma_split_word(s2, c);
    assert(e + c =~= c);
    assert(seq![a, b, e].update(2, e + c) =~= seq![a, b, c]);
    assert(a + seq![' '] + b + seq![' '] + c =~= s2 + c);
}

/// The characters of a string, one by one.
pub fn chars_of(s: &str) -> (out: Vec<char>)
    ensures
        out@ == s@,
{
    let n = s.unicode_len();
    let mut out: Vec<char> = Vec::new();
    let mut i: usize = 0;
    while i < n
        invariant
            n == s@.len(),
            i <= n,
            out@ == s@.subrange(0, i as int),
        decreases n - i,
    {
        let c = s.get_char(i);
        out.push(c);
        i = i + 1;
    }
    out
}

/// Reads `s[start..]` as a run of digits whose value is at most `limit`.
fn parse_digits(s: &Vec<char>, start: usize, limit: u64) -> (r: Option<u64>)
    requires
        start <= s.len(),
        limit <= 0x8000_0000,
    ensures
        r is Some <==> (is_numeral(s@.skip(start as int)) && digits_value(s@.skip(start as int))
            <= limit),
        r matches Some(v) ==> v == digits_value(s@.skip(start as int)),
{
    let ghost body = s@.skip(start as int);
    let mut acc: u64 = 0;
    let mut over = false;
    let mut i: usize = start;
    while i < s.len()
        invariant
            start <= i <= s.len(),
            body == s@.skip(start as int),
            limit <= 0x8000_0000,
            forall|j: int| 0 <= j < i - start ==> is_digit(#[trigger] body[j]),
            !over ==> acc == digits_value(body.take(i - start)) && acc <= limit,
            over ==> digits_value(body.take(i - start)) > limit,
        decreases s.len() - i,
    {
        let c = s[i];
        if !('0' <= c && c <= '9') {
            assert(body[i - start] == c);
            return None;
        }
        let ghost prefix = body.take(i - start);
        let ghost next = body.take(i - start + 1);
        assert(next.drop_last() =~= prefix);
        assert(next.last() == c);
        proof {
            assert forall|j: int| 0 <= j < prefix.len() implies is_digit(#[trigger] prefix[j]) by {
                assert(prefix[j] == body[j]);
            }
            lemma_digits_value_nonneg(prefix);
        }
        let d = (c as u32 - '0' as u32) as u64;
        if !over {
            let v = acc * 10 + d;
            if v > limit {
                over = true;
            } else {
                acc = v;
            }
        }
        i = i + 1;
    }
    assert(body.take(s.len() - start) =~= body);
    if i == start || over {
        None
    } else {
        Some(acc)
    }
}

/// Reads `s` as `str::parse::<i32>` does.
pub fn parse_i32(s: &Vec<char>) -> (r: Option<i32>)
    ensures
        r is Some <==> spec_parse_i32(s@) is Some,
        r matches Some(v) ==> v as int == spec_parse_i32(s@)->0,
{
    if s.len() > 0 && s[0] == '-' {
        assert(s@.skip(1) =~= s@.drop_first());
        match parse_digits(s, 1, 0x8000_0000) {
            Some(v) => Some((0i64 - v as i64) as i32),
            None => None,
        }
    } else if s.len() > 0 && s[0] == '+' {
        assert(s@.skip(1) =~= s@.drop_first());
        match parse_digits(s, 1, 0x7fff_ffff) {
            Some(v) => Some(v as i32),
            None => None,
        }
    } else {
        assert(s@.skip(0) =~= s@);
        match parse_digits(s, 0, 0x7fff_ffff) {
            Some(v) => Some(v as i32),
            None => None,
        }
    }
}

/// Reads `s` as `str::parse::<u8>` does.
pub fn parse_u8(s: &Vec<char>) -> (r: Option<u8>)
    ensures
        r is Some <==> spec_parse_u8(s@) is Some,
        r matches Some(v) ==> v as int == spec_parse_u8(s@)->0,
{
    let start: usize = if s.len() > 0 && s[0] == '+' { 1 } else { 0 };
    assert(s@.skip(1) =~= s@.drop_first());
    assert(s@.skip(0) =~= s@);
    match parse_digits(s, start, 255) {
        Some(v) => Some(v as u8),
        None => None,
    }
}

/// The character sequences of a list of character vectors.
pub open spec fn pieces(v: Seq<Vec<char>>) -> Seq<Seq<char>> {
    v.map_values(|p: Vec<char>| p@)
}

/// Splits `s` on single spaces, as `str::split(" ")` does.
pub fn split_spaces_exec(s: &Vec<char>) -> (parts: Vec<Vec<char>>)
    ensures
        pieces(parts@) == split_spaces(s@),
{
    let mut parts: Vec<Vec<char>> = Vec::new();
    let mut cur: Vec<char> = Vec::new();
    let mut i: usize = 0;
    while i < s.len()
        invariant
            i <= s.len(),
            pieces(parts@).push(cur@) == split_spaces(s@.take(i as int)),
        decreases s.len() - i,
    {
        let ghost old_parts = pieces(parts@);
        let ghost old_cur = cur@;
        let c = s[i];
        assert(s@.take(i + 1).drop_last() =~= s@.take(i as int));
        if c == ' ' {
            parts.push(cur);
            cur = Vec::new();
            assert(pieces(parts@) =~= old_parts.push(old_cur));
            assert(pieces(parts@).push(cur@) =~= old_parts.push(old_cur).push(
                Seq::<char>::empty(),
            ));
        } else {
            cur.push(c);
            assert(pieces(parts@).push(cur@) =~= old_parts.push(old_cur).update(
                old_parts.len() as int,
                old_cur.push(c),
            ));
        }
        i = i + 1;
    }
    assert(s@.take(s.len() as int) =~= s@);
    let ghost before = pieces(parts@);
    parts.push(cur);
    assert(pieces(parts@) =~= before.push(cur@));
    parts
}

} // verus!
