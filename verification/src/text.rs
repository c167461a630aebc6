use vstd::prelude::*;

verus! {

/// Whether `c` has the Unicode `White_Space` property, which is what
/// `char::is_whitespace` tests and what `str::trim` strips.
pub open spec fn is_whitespace(c: char) -> bool {
    let u = c as u32;
    ||| 0x9 <= u <= 0xd
    ||| u == 0x20
    ||| u == 0x85
    ||| u == 0xa0
    ||| u == 0x1680
    ||| 0x2000 <= u <= 0x200a
    ||| u == 0x2028
    ||| u == 0x2029
    ||| u == 0x202f
    ||| u == 0x205f
    ||| u == 0x3000
}

/// `s` without its leading whitespace.
pub open spec fn trim_start(s: Seq<char>) -> Seq<char>
    decreases s.len(),
{
    if s.len() > 0 && is_whitespace(s[0]) {
        trim_start(s.drop_first())
    } else {
        s
    }
}

/// `s` without its trailing whitespace.
pub open spec fn trim_end(s: Seq<char>) -> Seq<char>
    decreases s.len(),
{
    if s.len() > 0 && is_whitespace(s.last()) {
        trim_end(s.drop_last())
    } else {
        s
    }
}

/// `s` without its leading and trailing whitespace.
pub open spec fn trim(s: Seq<char>) -> Seq<char> {
    trim_end(trim_start(s))
}

/// Whether `c` is whitespace (see `is_whitespace`).
pub fn char_is_whitespace(c: char) -> (b: bool)
    ensures
        b == is_whitespace(c),
{
    let u = c as u32;
    (0x9 <= u && u <= 0xd) || u == 0x20 || u == 0x85 || u == 0xa0 || u == 0x1680 || (0x2000 <= u
        && u <= 0x200a) || u == 0x2028 || u == 0x2029 || u == 0x202f || u == 0x205f || u == 0x3000
}

/// `String::push`: appends the character `c` to `s`.
#[verifier::external_body]
fn push_char(s: &mut String, c: char)
    ensures
        final(s)@ == old(s)@.push(c),
{
    s.push(c);
}

/// The characters of `s`, in order.
pub fn chars_of(s: &str) -> (chars: Vec<char>)
    ensures
        chars@ == s@,
{
    let n = s.unicode_len();
    let mut chars: Vec<char> = Vec::new();
    let mut i: usize = 0;
    while i < n
        invariant
            n == s@.len(),
            i <= n,
            chars@ == s@.take(i as int),
        decreases n - i,
    {
        chars.push(s.get_char(i));
        assert(s@.take(i as int).push(s@[i as int]) =~= s@.take(i + 1));
        i = i + 1;
    }
    assert(s@.take(n as int) =~= s@);
    chars
}

proof fn lemma_trim_start_skip(s: Seq<char>, k: int)
    requires
        0 <= k <= s.len(),
        forall|i: int| 0 <= i < k ==> is_whitespace(#[trigger] s[i]),
    ensures
        trim_start(s) == trim_start(s.skip(k)),
    decreases k,
{
    if k > 0 {
        assert(is_whitespace(s[0]));
        lemma_trim_start_skip(s.drop_first(), k - 1);
        assert(s.drop_first().skip(k - 1) =~= s.skip(k));
    } else {
        assert(s.skip(0) =~= s);
    }
}

proof fn lemma_trim_end_take(s: Seq<char>, k: int)
    requires
        0 <= k <= s.len(),
        forall|i: int| k <= i < s.len() ==> is_whitespace(#[trigger] s[i]),
    ensures
        trim_end(s) == trim_end(s.take(k)),
    decreases s.len() - k,
{
    if k < s.len() {
        assert(is_whitespace(s[s.len() - 1]));
        lemma_trim_end_take(s.drop_last(), k);
        assert(s.drop_last().take(k) =~= s.take(k));
    } else {
        assert(s.take(k) =~= s);
    }
}

/// `s` with its leading and trailing whitespace removed, as `str::trim` does.
pub fn trimmed(s: &str) -> (t: String)
    ensures
        t@ == trim(s@),
{
    let chars = chars_of(s);
    let n = chars.len();
    let mut start: usize = 0;
    while start < n && char_is_whitespace(chars[start])
        invariant
            n == s@.len(),
            chars@ == s@,
            start <= n,
            forall|i: int| 0 <= i < start ==> is_whitespace(#[trigger] s@[i]),
        decreases n - start,
    {
        start = start + 1;
    }
    let mut end: usize = n;
    while end > start && char_is_whitespace(chars[end - 1])
        invariant
            n == s@.len(),
            chars@ == s@,
            start <= end <= n,
            forall|i: int| end <= i < n ==> is_whitespace(#[trigger] s@[i]),
        decreases end - start,
    {
        end = end - 1;
    }
    proof {
        lemma_trim_start_skip(s@, start as int);
        let rest = s@.skip(start as int);
        assert(trim_start(rest) == rest);
        assert forall|i: int| end - start <= i < rest.len() implies is_whitespace(#[trigger] rest[i]) by {
            assert(rest[i] == s@[i + start]);
        }
        lemma_trim_end_take(rest, end - start);
        let kept = rest.take(end - start);
        if kept.len() > 0 {
            assert(kept.last() == s@[end - 1]);
        }
        assert(trim_end(kept) == kept);
        assert(kept =~= s@.subrange(start as int, end as int));
    }
    s.substring_char(start, end).to_owned()
}


/// The pieces of `s` between its separators `sep`, as `str::split` yields
/// them: one more piece than there are separators, empty pieces included.
pub open spec fn split_on(s: Seq<char>, sep: char) -> Seq<Seq<char>>
    decreases s.len(),
{
    if s.len() == 0 {
        seq![Seq::<char>::empty()]
    } else {
        let rest = split_on(s.drop_last(), sep);
        if s.last() == sep {
            rest.push(Seq::<char>::empty())
        } else {
            rest.update(rest.len() - 1, rest.last().push(s.last()))
        }
    }
}

/// The pieces of `s` between its separators `sep`, each trimmed of leading
/// and trailing whitespace.
pub fn split_trimmed(s: &str, sep: char) -> (pieces: Vec<String>)
    ensures
        pieces.len() == split_on(s@, sep).len(),
        forall|k: int| 0 <= k < pieces.len() ==> #[trigger] pieces[k]@ == trim(split_on(s@, sep)[k]),
{
    let chars = chars_of(s);
    let n = chars.len();
    let mut pieces: Vec<String> = Vec::new();
    let ghost mut raw: Seq<Seq<char>> = Seq::empty();
    let mut start: usize = 0;
    let mut i: usize = 0;
    assert(s@.take(0) =~= Seq::<char>::empty());
    assert(split_on(s@.take(0), sep) =~= raw.push(s@.subrange(0, 0)));
    while i < n
        invariant
            n == s@.len(),
            chars@ == s@,
            start <= i <= n,
            split_on(s@.take(i as int), sep) == raw.push(s@.subrange(start as int, i as int)),
            pieces.len() == raw.len(),
            forall|k: int| 0 <= k < pieces.len() ==> #[trigger] pieces[k]@ == trim(raw[k]),
        decreases n - i,
    {
        let c = chars[i];
        let ghost before = s@.take(i as int);
        assert(s@.take(i + 1).drop_last() =~= before);
        assert(s@.take(i + 1).last() == c);
        if c == sep {
            let piece = trimmed(s.substring_char(start, i));
            pieces.push(piece);
            proof {
                raw = raw.push(s@.subrange(start as int, i as int));
            }
            start = i + 1;
            assert(split_on(s@.take(i + 1), sep) == split_on(before, sep).push(Seq::<char>::empty()));
            assert(s@.subrange(start as int, i + 1) =~= Seq::<char>::empty());
            assert(split_on(s@.take(i + 1), sep) =~= raw.push(s@.subrange(start as int, i + 1)));
        } else {
            let ghost cur = s@.subrange(start as int, i as int);
            assert(cur.push(c) =~= s@.subrange(start as int, i + 1));
            let ghost rest = raw.push(cur);
            assert(split_on(s@.take(i + 1), sep) == rest.update(rest.len() - 1, rest.last().push(c)));
            assert(rest.update(rest.len() - 1, rest.last().push(c)) =~= raw.push(cur.push(c)));
        }
        i = i + 1;
    }
    let last = trimmed(s.substring_char(start, n));
    pieces.push(last);
    proof {
        assert(s@.take(n as int) =~= s@);
        raw = raw.push(s@.subrange(start as int, n as int));
        assert(split_on(s@, sep) == raw);
    }
    pieces
}


/// Whether `c` is one of the ASCII digits `0` to `9`.
pub open spec fn is_digit(c: char) -> bool {
    48 <= (c as u32) <= 57
}

/// The value of the ASCII digit `c`.
pub open spec fn digit_value(c: char) -> int {
    (c as u32) - 48
}

/// The ASCII digit for `d`, where `d < 10`.
pub open spec fn digit_char(d: nat) -> char {
    (d + 48) as char
}

/// Whether every character of `s` is an ASCII digit.
pub open spec fn all_digits(s: Seq<char>) -> bool {
    forall|i: int| 0 <= i < s.len() ==> is_digit(#[trigger] s[i])
}

/// The number that the digits `s` write in base ten.
pub open spec fn digits_value(s: Seq<char>) -> int
    decreases s.len(),
{
    if s.len() == 0 {
        0
    } else {
        digits_value(s.drop_last()) * 10 + digit_value(s.last())
    }
}

/// The base-ten digits of `n`, without leading zeros (`0` for zero).
pub open spec fn decimal(n: nat) -> Seq<char>
    decreases n,
{
    if n < 10 {
        seq![digit_char(n)]
    } else {
        decimal(n / 10).push(digit_char(n % 10))
    }
}

/// How `i64`'s `Display` writes `n`: a minus sign for a negative number,
/// then the digits of its magnitude.
pub open spec fn int_decimal(n: int) -> Seq<char> {
    if n < 0 {
        seq!['-'] + decimal((-n) as nat)
    } else {
        decimal(n as nat)
    }
}

/// `s` without its leading sign, if it has one.
pub open spec fn unsigned_part(s: Seq<char>) -> Seq<char> {
    if s.len() > 0 && (s[0] == '-' || s[0] == '+') {
        s.drop_first()
    } else {
        s
    }
}

/// What `str::parse::<i64>` gives for `s`: an optional `+` or `-`, then at
/// least one ASCII digit and nothing else, with a value that fits in `i64`;
/// `None` for anything else.
pub open spec fn parse_i64_spec(s: Seq<char>) -> Option<i64> {
    let negative = s.len() > 0 && s[0] == '-';
    let body = unsigned_part(s);
    let value = if negative { -digits_value(body) } else { digits_value(body) };
    if body.len() > 0 && all_digits(body) && i64::MIN <= value <= i64::MAX {
        Some(value as i64)
    } else {
        None
    }
}

fn push_decimal(out: &mut String, n: u64)
    ensures
        final(out)@ == old(out)@ + decimal(n as nat),
    decreases n,
{
    if n >= 10 {
        push_decimal(out, n / 10);
    }
    let d: u8 = (n % 10) as u8;
    push_char(out, (d + 48) as char);
    proof {
        if n < 10 {
            assert(decimal(n as nat) == seq![digit_char(n as nat)]);
        } else {
            assert(decimal(n as nat) == decimal((n / 10) as nat).push(digit_char((n % 10) as nat)));
        }
    }
    assert(final(out)@ =~= old(out)@ + decimal(n as nat));
}

/// `n` written in base ten, as `u64`'s `to_string` writes it.
pub fn u64_to_decimal(n: u64) -> (s: String)
    ensures
        s@ == decimal(n as nat),
{
    let mut s = String::new();
    push_decimal(&mut s, n);
    assert(s@ =~= decimal(n as nat));
    s
}

/// `n` written in base ten, as `i64`'s `to_string` writes it.
pub fn i64_to_decimal(n: i64) -> (s: String)
    ensures
        s@ == int_decimal(n as int),
{
    let mut s = String::new();
    if n < 0 {
        push_char(&mut s, '-');
        let magnitude: u64 = ((-(n + 1)) as u64) + 1;
        push_decimal(&mut s, magnitude);
    } else {
        push_decimal(&mut s, n as u64);
    }
    assert(s@ =~= int_decimal(n as int));
    s
}


/// Parses `s` as `str::parse::<i64>` does (see `parse_i64_spec`).
pub fn parse_i64(s: &str) -> (r: Option<i64>)
    ensures
        r == parse_i64_spec(s@),
{
    let chars = chars_of(s);
    let n = chars.len();
    let negative = n > 0 && chars[0] == '-';
    let start: usize = if n > 0 && (chars[0] == '-' || chars[0] == '+') { 1 } else { 0 };
    let ghost body = unsigned_part(s@);
    assert(body =~= s@.skip(start as int));
    if start == n {
        return None;
    }
    let limit: u128 = 0x8000_0000_0000_0000;
    let mut acc: u128 = 0;
    let mut too_big = false;
    let mut i: usize = start;
    assert(body.take(0) =~= Seq::<char>::empty());
    while i < n
        invariant
            n == s@.len(),
            chars@ == s@,
            start <= i <= n,
            body == s@.skip(start as int),
            body == unsigned_part(s@),
            negative == (s@.len() > 0 && s@[0] == '-'),
            limit == 0x8000_0000_0000_0000,
            all_digits(body.take(i - start)),
            !too_big ==> acc == digits_value(body.take(i - start)) && acc <= limit,
            too_big ==> digits_value(body.take(i - start)) > limit,
        decreases n - i,
    {
        let c = chars[i];
        let code = c as u32;
        assert(code == c as u32);
        if code < 48 || code > 57 {
            assert(body[i - start] == c);
            assert(!all_digits(body));
            return None;
        }
        let ghost prefix = body.take(i - start);
        assert(body.take(i - start + 1).drop_last() =~= prefix);
        assert(body.take(i - start + 1).last() == c);
        assert(all_digits(body.take(i - start + 1)));
        let d: u128 = (code - 48) as u128;
        if !too_big {
            let next = acc * 10 + d;
            if next > limit {
                too_big = true;
            } else {
                acc = next;
            }
        }
        i = i + 1;
    }
    assert(body.take(n - start) =~= body);
    if too_big {
        return None;
    }
    if negative {
        if acc == limit {
            Some(i64::MIN)
        } else {
            Some(-(acc as i64))
        }
    } else if acc > 0x7fff_ffff_ffff_ffff {
        None
    } else {
        Some(acc as i64)
    }
}

/// How many times `c` occurs in `s`.
pub open spec fn occurrences(s: Seq<char>, c: char) -> nat
    decreases s.len(),
{
    if s.len() == 0 {
        0
    } else {
        occurrences(s.drop_last(), c) + if s.last() == c { 1nat } else { 0nat }
    }
}

/// `trim_start` drops a prefix.
pub proof fn lemma_trim_start_is_suffix(s: Seq<char>)
    ensures
        exists|a: int| 0 <= a <= s.len() && trim_start(s) == s.skip(a)
            && forall|i: int| 0 <= i < a ==> is_whitespace(#[trigger] s[i]),
        trim_start(s).len() > 0 ==> !is_whitespace(trim_start(s)[0]),
    decreases s.len(),
{
    if s.len() > 0 && is_whitespace(s[0]) {
        let r = s.drop_first();
        lemma_trim_start_is_suffix(r);
        let a = choose|a: int| 0 <= a <= r.len() && trim_start(r) == r.skip(a)
            && forall|i: int| 0 <= i < a ==> is_whitespace(#[trigger] r[i]);
        assert(r.skip(a) =~= s.skip(a + 1));
        assert forall|i: int| 0 <= i < a + 1 implies is_whitespace(#[trigger] s[i]) by {
            if i > 0 {
                assert(s[i] == r[i - 1]);
            }
        }
    } else {
        assert(s.skip(0) =~= s);
    }
}

/// `trim_end` drops a suffix.
pub proof fn lemma_trim_end_is_prefix(s: Seq<char>)
    ensures
        exists|b: int| 0 <= b <= s.len() && trim_end(s) == s.take(b)
            && forall|i: int| b <= i < s.len() ==> is_whitespace(#[trigger] s[i]),
        trim_end(s).len() > 0 ==> !is_whitespace(trim_end(s).last()),
        trim_end(s).len() > 0 ==> trim_end(s)[0] == s[0],
    decreases s.len(),
{
    if s.len() > 0 && is_whitespace(s.last()) {
        let r = s.drop_last();
        lemma_trim_end_is_prefix(r);
        let b = choose|b: int| 0 <= b <= r.len() && trim_end(r) == r.take(b)
            && forall|i: int| b <= i < r.len() ==> is_whitespace(#[trigger] r[i]);
        assert(r.take(b) =~= s.take(b));
        assert forall|i: int| b <= i < s.len() implies is_whitespace(#[trigger] s[i]) by {
            if i < s.len() - 1 {
                assert(s[i] == r[i]);
            }
        }
    } else {
        assert(s.take(s.len() as int) =~= s);
    }
}

/// Law: a trimmed text is a stretch of the text that neither starts nor
/// ends with whitespace, and trimming it again changes nothing.
pub proof fn law_trim_shape(s: Seq<char>)
    ensures
        exists|a: int, b: int| 0 <= a <= b <= s.len() && trim(s) == s.subrange(a, b)
            && (forall|i: int| 0 <= i < a ==> is_whitespace(#[trigger] s[i]))
            && (forall|i: int| b <= i < s.len() ==> is_whitespace(#[trigger] s[i])),
        trim(s).len() > 0 ==> !is_whitespace(trim(s)[0]) && !is_whitespace(trim(s).last()),
        trim(trim(s)) == trim(s),
{
    lemma_trim_start_is_suffix(s);
    let a = choose|a: int| 0 <= a <= s.len() && trim_start(s) == s.skip(a)
        && forall|i: int| 0 <= i < a ==> is_whitespace(#[trigger] s[i]);
    let t = trim_start(s);
    lemma_trim_end_is_prefix(t);
    let b = choose|b: int| 0 <= b <= t.len() && trim_end(t) == t.take(b)
        && forall|i: int| b <= i < t.len() ==> is_whitespace(#[trigger] t[i]);
    assert(t.take(b) =~= s.subrange(a, a + b));
    assert forall|i: int| a + b <= i < s.len() implies is_whitespace(#[trigger] s[i]) by {
        assert(s[i] == t[i - a]);
    }
    let r = trim(s);
    if r.len() > 0 {
        assert(r[0] == t[0]);
        assert(!is_whitespace(r[0]));
        assert(trim_start(r) == r);
        assert(trim_end(r) == r);
    } else {
        assert(trim_start(r) == r);
        assert(trim_end(r) == r);
    }
}

/// The pieces that `split_on` yields number one more than the separators,
/// and none of them holds the separator.
pub proof fn lemma_split_on_pieces(s: Seq<char>, sep: char)
    ensures
        split_on(s, sep).len() == occurrences(s, sep) + 1,
        forall|k: int, i: int| 0 <= k < split_on(s, sep).len() && 0 <= i < split_on(s, sep)[k].len()
            ==> #[trigger] split_on(s, sep)[k][i] != sep,
    decreases s.len(),
{
    if s.len() > 0 {
        lemma_split_on_pieces(s.drop_last(), sep);
        let rest = split_on(s.drop_last(), sep);
        let all = split_on(s, sep);
        if s.last() != sep {
            assert forall|k: int, i: int| 0 <= k < all.len() && 0 <= i < all[k].len()
                implies #[trigger] all[k][i] != sep by {
                if k < rest.len() - 1 {
                    assert(all[k] == rest[k]);
                } else {
                    assert(all[k] == rest.last().push(s.last()));
                    if i < rest.last().len() {
                        assert(rest.last()[i] == rest[rest.len() - 1][i]);
                    }
                }
            }
        } else {
            assert forall|k: int, i: int| 0 <= k < all.len() && 0 <= i < all[k].len()
                implies #[trigger] all[k][i] != sep by {
                assert(all[k] == rest[k]);
            }
        }
    } else {
        let all = split_on(s, sep);
        assert(all[0].len() == 0);
    }
}

/// `pieces` joined with `sep` between consecutive pieces.
pub open spec fn join_with(pieces: Seq<Seq<char>>, sep: char) -> Seq<char>
    decreases pieces.len(),
{
    if pieces.len() == 0 {
        Seq::empty()
    } else if pieces.len() == 1 {
        pieces[0]
    } else {
        join_with(pieces.drop_last(), sep).push(sep) + pieces.last()
    }
}

/// Law: the pieces between separators are exactly the stretches of the text
/// between its separators: joined back with the separator they give the
/// text, and none of them holds the separator.
pub proof fn law_split_on_rejoins(s: Seq<char>, sep: char)
    ensures
        join_with(split_on(s, sep), sep) == s,
        forall|k: int, i: int| 0 <= k < split_on(s, sep).len() && 0 <= i < split_on(s, sep)[k].len()
            ==> #[trigger] split_on(s, sep)[k][i] != sep,
    decreases s.len(),
{
    lemma_split_on_pieces(s, sep);
    if s.len() == 0 {
        assert(split_on(s, sep).len() == 1);
        assert(join_with(split_on(s, sep), sep) =~= s);
    } else {
        let init = s.drop_last();
        law_split_on_rejoins(init, sep);
        lemma_split_on_pieces(init, sep);
        let rest = split_on(init, sep);
        let all = split_on(s, sep);
        if s.last() == sep {
            assert(all.drop_last() =~= rest);
            assert(join_with(all, sep) =~= init.push(sep));
        } else {
            let q = rest.last().push(s.last());
            assert(all == rest.update(rest.len() - 1, q));
            if rest.len() == 1 {
                assert(join_with(all, sep) == q);
                assert(join_with(rest, sep) == rest[0]);
                assert(q =~= s);
            } else {
                assert(all.drop_last() =~= rest.drop_last());
                assert(join_with(all, sep) == join_with(rest.drop_last(), sep).push(sep) + q);
                assert(join_with(rest, sep) == join_with(rest.drop_last(), sep).push(sep) + rest.last());
                assert(join_with(all, sep) =~= join_with(rest, sep).push(s.last()));
                assert(init.push(s.last()) =~= s);
            }
        }
    }
}

proof fn lemma_digit_char_value(d: nat)
    requires
        d < 10,
    ensures
        is_digit(digit_char(d)),
        digit_value(digit_char(d)) == d,
{
    assert(((d + 48) as char) as u32 == d + 48);
}

pub proof fn lemma_decimal_digits(n: nat)
    ensures
        decimal(n).len() >= 1,
        all_digits(decimal(n)),
        digits_value(decimal(n)) == n,
    decreases n,
{
    lemma_digit_char_value((n % 10) as nat);
    if n < 10 {
        let d = decimal(n);
        assert(d.drop_last() =~= Seq::<char>::empty());
        assert(digits_value(d) == digits_value(d.drop_last()) * 10 + digit_value(d.last()));
    } else {
        lemma_decimal_digits(n / 10);
        let d = decimal(n);
        assert(d.drop_last() =~= decimal(n / 10));
        assert(digits_value(d) == digits_value(d.drop_last()) * 10 + digit_value(d.last()));
        assert forall|i: int| 0 <= i < d.len() implies is_digit(#[trigger] d[i]) by {
            if i < d.len() - 1 {
                assert(d[i] == decimal(n / 10)[i]);
            }
        }
    }
}

/// Law: parsing what `i64_to_decimal` writes gives the number back.
pub proof fn law_parse_i64_undoes_decimal(n: i64)
    ensures
        parse_i64_spec(int_decimal(n as int)) == Some(n),
{
    let s = int_decimal(n as int);
    if n < 0 {
        lemma_decimal_digits((-n) as nat);
        assert(s[0] == '-');
        assert(s.drop_first() =~= decimal((-n) as nat));
    } else {
        lemma_decimal_digits(n as nat);
        assert(is_digit(s[0]));
    }
}

} // verus!
