//! Decimal text and delimited fields: rendering integers, reading them back,
//! and cutting a character sequence at a separator.

use vstd::prelude::*;

verus! {

/// The character that stands for the decimal digit `d`.
pub open spec fn spec_digit_char(d: int) -> char {
    (48 + d) as u8 as char
}

/// The canonical decimal form of a natural number: no sign, no leading
/// zeros, `"0"` for zero.
pub open spec fn spec_decimal_nat(n: nat) -> Seq<char>
    decreases n,
{
    if n < 10 {
        seq![spec_digit_char(n as int)]
    } else {
        spec_decimal_nat(n / 10).push(spec_digit_char((n % 10) as int))
    }
}

/// The canonical decimal form of an integer: a `-` in front of the
/// magnitude of a negative number.
pub open spec fn spec_decimal_int(n: int) -> Seq<char> {
    if n < 0 {
        seq!['-'] + spec_decimal_nat((-n) as nat)
    } else {
        spec_decimal_nat(n as nat)
    }
}

/// Whether a character is a decimal digit.
pub open spec fn spec_is_digit(c: char) -> bool {
    '0' <= c && c <= '9'
}

/// The value of a digit character; 0 for any other character.
pub open spec fn spec_digit_value(c: char) -> nat {
    if spec_is_digit(c) {
        (c as int - 48) as nat
    } else {
        0
    }
}

/// Whether every character of a text is a decimal digit.
pub open spec fn spec_all_digits(s: Seq<char>) -> bool {
    forall|i: int| 0 <= i < s.len() ==> spec_is_digit(#[trigger] s[i])
}

/// The number that a run of digits denotes, most significant digit first.
pub open spec fn spec_digits_value(s: Seq<char>) -> nat
    decreases s.len(),
{
    if s.len() == 0 {
        0
    } else {
        10 * spec_digits_value(s.drop_last()) + spec_digit_value(s.last())
    }
}

/// Reading an unsigned decimal number no greater than `max`: an optional
/// `+`, then at least one digit and nothing else.
pub open spec fn spec_parse_unsigned(s: Seq<char>, max: nat) -> Option<nat> {
    let body = if s.len() > 0 && s[0] == '+' {
        s.subrange(1, s.len() as int)
    } else {
        s
    };
    if body.len() > 0 && spec_all_digits(body) && spec_digits_value(body) <= max {
        Some(spec_digits_value(body))
    } else {
        None
    }
}

/// Reading a signed 32-bit decimal number: an optional `+` or `-`, then at
/// least one digit and nothing else, within the range of `i32`.
pub open spec fn spec_parse_i32(s: Seq<char>) -> Option<i32> {
    if s.len() > 0 && s[0] == '-' {
        let body = s.subrange(1, s.len() as int);
        if body.len() > 0 && spec_all_digits(body) && spec_digits_value(body) <= 0x8000_0000 {
            Some((-(spec_digits_value(body) as int)) as i32)
        } else {
            None
        }
    } else {
        match spec_parse_unsigned(s, 0x7fff_ffff) {
            Some(v) => Some(v as i32),
            None => None,
        }
    }
}

/// The pieces of `s` between occurrences of `sep`. There is always at least
/// one piece; a separator at either end gives an empty piece there.
pub open spec fn spec_split(s: Seq<char>, sep: char) -> Seq<Seq<char>>
    decreases s.len(),
{
    if s.len() == 0 {
        seq![Seq::<char>::empty()]
    } else {
        let before = spec_split(s.drop_last(), sep);
        if s.last() == sep {
            before.push(Seq::<char>::empty())
        } else {
            before.update(before.len() - 1, before.last().push(s.last()))
        }
    }
}

/// A line without the carriage return that may end it.
pub open spec fn spec_strip_cr(line: Seq<char>) -> Seq<char> {
    if line.len() > 0 && line.last() == '\r' {
        line.drop_last()
    } else {
        line
    }
}

/// The lines of a text: the pieces between line feeds, each without a
/// closing carriage return; what follows the last line feed is a line only
/// if it is not empty.
pub open spec fn spec_lines(text: Seq<char>) -> Seq<Seq<char>> {
    let pieces = spec_split(text, '\n');
    let kept = if pieces.last().len() == 0 {
        pieces.drop_last()
    } else {
        pieces
    };
    kept.map_values(|l: Seq<char>| spec_strip_cr(l))
}

/// The views of a sequence of character vectors.
pub open spec fn spec_views(parts: Seq<Vec<char>>) -> Seq<Seq<char>> {
    parts.map_values(|p: Vec<char>| p@)
}

/// Every text has at least one piece.
pub proof fn lemma_split_nonempty(s: Seq<char>, sep: char)
    ensures
        spec_split(s, sep).len() >= 1,
    decreases s.len(),
{
    if s.len() > 0 {
        lemma_split_nonempty(s.drop_last(), sep);
    }
}

/// A text without the separator is one piece.
pub proof fn lemma_split_one_piece(s: Seq<char>, sep: char)
    requires
        !s.contains(sep),
    ensures
        spec_split(s, sep) == seq![s],
    decreases s.len(),
{
    if s.len() > 0 {
        let front = s.drop_last();
        assert(s.last() != sep) by {
            assert(s[s.len() - 1] == s.last());
        }
        assert(!front.contains(sep)) by {
            if front.contains(sep) {
                let i = choose|i: int| 0 <= i < front.len() && front[i] == sep;
                assert(s[i] == sep);
            }
        }
        lemma_split_one_piece(front, sep);
        assert(seq![front].update(0, front.push(s.last())) =~= seq![s]) by {
            assert(front.push(s.last()) =~= s);
        }
    } else {
        assert(s =~= Seq::<char>::empty());
    }
}

/// The pieces of two texts with a separator between them are the pieces of
/// the first and then the pieces of the second.
pub proof fn lemma_split_joined(a: Seq<char>, b: Seq<char>, sep: char)
    ensures
        spec_split(a.push(sep) + b, sep) == spec_split(a, sep) + spec_split(b, sep),
    decreases b.len(),
{
    let joined = a.push(sep) + b;
    if b.len() == 0 {
        assert(joined =~= a.push(sep));
        assert(joined.drop_last() =~= a);
        assert(spec_split(b, sep) =~= seq![Seq::<char>::empty()]);
        assert(spec_split(a, sep).push(Seq::<char>::empty()) =~= spec_split(a, sep) + seq![
            Seq::<char>::empty(),
        ]);
    } else {
        let front = b.drop_last();
        lemma_split_joined(a, front, sep);
        lemma_split_nonempty(front, sep);
        lemma_split_nonempty(a, sep);
        assert(joined.drop_last() =~= a.push(sep) + front);
        assert(joined.last() == b.last());
        let left = spec_split(a, sep);
        let right = spec_split(front, sep);
        if b.last() == sep {
            assert((left + right).push(Seq::<char>::empty()) =~= left + right.push(
                Seq::<char>::empty(),
            ));
        } else {
            assert((left + right).update(
                (left + right).len() - 1,
                (left + right).last().push(b.last()),
            ) =~= left + right.update(right.len() - 1, right.last().push(b.last())));
        }
    }
}

/// The canonical decimal form of a number holds no comma.
pub proof fn lemma_decimal_has_no_comma(n: nat)
    ensures
        !spec_decimal_nat(n).contains(','),
{
    lemma_decimal_nat_digits(n);
    let text = spec_decimal_nat(n);
    if text.contains(',') {
        let i = choose|i: int| 0 <= i < text.len() && text[i] == ',';
        assert(spec_is_digit(text[i]));
    }
}

/// The value of a run of digits is at least that of each of its prefixes.
pub proof fn lemma_digits_value_prefix(s: Seq<char>, k: int)
    requires
        0 <= k <= s.len(),
    ensures
        spec_digits_value(s.subrange(0, k)) <= spec_digits_value(s),
    decreases s.len() - k,
{
    if k == s.len() {
        assert(s.subrange(0, k) == s);
    } else {
        lemma_digits_value_prefix(s.drop_last(), k);
        assert(s.drop_last().subrange(0, k) == s.subrange(0, k));
    }
}

/// The canonical decimal form of a number is made of digits, at least one,
/// and denotes the number.
pub proof fn lemma_decimal_nat_digits(n: nat)
    ensures
        spec_decimal_nat(n).len() >= 1,
        spec_all_digits(spec_decimal_nat(n)),
        spec_digits_value(spec_decimal_nat(n)) == n,
    decreases n,
{
    let text = spec_decimal_nat(n);
    if n < 10 {
        assert(text.drop_last() == Seq::<char>::empty());
        assert(spec_digits_value(text.drop_last()) == 0);
    } else {
        lemma_decimal_nat_digits(n / 10);
        let front = spec_decimal_nat(n / 10);
        assert(text.drop_last() == front);
        assert forall|i: int| 0 <= i < text.len() implies spec_is_digit(#[trigger] text[i]) by {
            if i < front.len() {
                assert(text[i] == front[i]);
            }
        }
    }
}

/// Reading the canonical decimal form of a number gives the number.
pub proof fn lemma_parse_decimal_nat(n: nat, max: nat)
    requires
        n <= max,
    ensures
        spec_parse_unsigned(spec_decimal_nat(n), max) == Some(n),
{
    lemma_decimal_nat_digits(n);
    assert(spec_is_digit(spec_decimal_nat(n)[0]));
}

/// Reading the canonical decimal form of a 32-bit number gives the number.
pub proof fn lemma_parse_decimal_int(n: i32)
    ensures
        spec_parse_i32(spec_decimal_int(n as int)) == Some(n),
{
    if n < 0 {
        let magnitude = (-(n as int)) as nat;
        lemma_decimal_nat_digits(magnitude);
        let text = spec_decimal_int(n as int);
        assert(text[0] == '-');
        assert(text.subrange(1, text.len() as int) == spec_decimal_nat(magnitude));
    } else {
        lemma_parse_decimal_nat(n as nat, 0x7fff_ffff);
        lemma_decimal_nat_digits(n as nat);
        assert(spec_is_digit(spec_decimal_nat(n as nat)[0]));
    }
}

/// Two 32-bit numbers with the same canonical decimal form are the same
/// number: comparing numbers by their decimal forms compares the numbers.
pub proof fn lemma_decimal_int_injective(a: i32, b: i32)
    ensures
        spec_decimal_int(a as int) == spec_decimal_int(b as int) <==> a == b,
{
    lemma_parse_decimal_int(a);
    lemma_parse_decimal_int(b);
}

/// The character that stands for a decimal digit.
pub fn digit_char(d: u8) -> (c: char)
    requires
        d < 10,
    ensures
        c == spec_digit_char(d as int),
{
    (48u8 + d) as char
}

/// The characters of a string slice, in a vector.
pub fn to_chars(s: &str) -> (v: Vec<char>)
    ensures
        v@ == s@,
{
    let mut v: Vec<char> = Vec::new();
    for c in it: s.chars()
        invariant
            it.seq() == s@,
            v@ == s@.subrange(0, it.index() as int),
    {
        assert(s@.subrange(0, it.index() + 1) == s@.subrange(0, it.index() as int).push(c));
        v.push(c);
    }
    v
}

/// `String::push`: the string grows by the one character at its end.
#[verifier::external_body]
pub(crate) fn push_char(s: &mut String, c: char)
    ensures
        final(s)@ == old(s)@.push(c),
{
    s.push(c)
}

/// Appends the characters of `v` to `s`.
pub fn push_chars(s: &mut String, v: &Vec<char>)
    ensures
        final(s)@ == old(s)@ + v@,
{
    let mut i: usize = 0;
    while i < v.len()
        invariant
            i <= v.len(),
            s@ == old(s)@ + v@.subrange(0, i as int),
        decreases v.len() - i,
    {
        assert(v@.subrange(0, i + 1) == v@.subrange(0, i as int).push(v@[i as int]));
        push_char(s, v[i]);
        i += 1;
    }
    assert(v@.subrange(0, v.len() as int) == v@);
}

/// A string made of the characters of `v`.
pub fn chars_to_string(v: &Vec<char>) -> (s: String)
    ensures
        s@ == v@,
{
    let mut s = String::new();
    push_chars(&mut s, v);
    s
}

/// Appends the canonical decimal form of `n` to `s`.
pub fn push_decimal(s: &mut String, n: u64)
    ensures
        final(s)@ == old(s)@ + spec_decimal_nat(n as nat),
    decreases n,
{
    if n >= 10 {
        push_decimal(s, n / 10);
    }
    push_char(s, digit_char((n % 10) as u8));
}

/// The canonical decimal form of `n`.
pub fn u64_to_decimal(n: u64) -> (s: String)
    ensures
        s@ == spec_decimal_nat(n as nat),
{
    let mut s = String::new();
    push_decimal(&mut s, n);
    s
}

/// The canonical decimal form of `n`, with a `-` in front if it is negative.
pub fn i32_to_decimal(n: i32) -> (s: String)
    ensures
        s@ == spec_decimal_int(n as int),
{
    let mut s = String::new();
    if n < 0 {
        push_char(&mut s, '-');
        let m: u64 = (-(n as i64)) as u64;
        push_decimal(&mut s, m);
    } else {
        push_decimal(&mut s, n as u64);
    }
    s
}

/// Whether a character is a decimal digit.
pub fn is_digit(c: char) -> (b: bool)
    ensures
        b == spec_is_digit(c),
{
    '0' <= c && c <= '9'
}

/// Reads the digits `s[from..]` as a number no greater than `max`.
fn parse_digits(s: &Vec<char>, from: usize, max: u64) -> (r: Option<u64>)
    requires
        from <= s.len(),
        max >= 9,
    ensures
        ({
            let body = s@.subrange(from as int, s.len() as int);
            if body.len() > 0 && spec_all_digits(body) && spec_digits_value(body) <= max {
                r == Some(spec_digits_value(body) as u64)
            } else {
                r is None
            }
        }),
{
    let ghost body = s@.subrange(from as int, s.len() as int);
    if from == s.len() {
        return None;
    }
    let mut acc: u64 = 0;
    let mut i: usize = from;
    while i < s.len()
        invariant
            from <= i <= s.len(),
            max >= 9,
            body == s@.subrange(from as int, s.len() as int),
            spec_all_digits(body.subrange(0, i - from)),
            acc == spec_digits_value(body.subrange(0, i - from)),
            acc <= max,
        decreases s.len() - i,
    {
        let c = s[i];
        let ghost upto = body.subrange(0, i - from + 1);
        assert(upto.drop_last() == body.subrange(0, i - from));
        assert(upto.last() == c);
        if !is_digit(c) {
            assert(!spec_is_digit(body[i - from]));
            return None;
        }
        let d: u64 = (c as u32 - 48) as u64;
        if acc > (max - d) / 10 {
            proof {
                lemma_digits_value_prefix(body, i - from + 1);
            }
            return None;
        }
        acc = acc * 10 + d;
        i += 1;
        assert(spec_all_digits(upto)) by {
            assert forall|j: int| 0 <= j < upto.len() implies spec_is_digit(#[trigger] upto[j]) by {
                if j < upto.len() - 1 {
                    assert(upto[j] == upto.drop_last()[j]);
                }
            }
        }
    }
    assert(body.subrange(0, i - from) == body);
    Some(acc)
}

/// Reads an unsigned decimal number no greater than `max`.
pub fn parse_unsigned(s: &Vec<char>, max: u64) -> (r: Option<u64>)
    requires
        max >= 9,
    ensures
        match spec_parse_unsigned(s@, max as nat) {
            Some(v) => r == Some(v as u64),
            None => r is None,
        },
{
    if s.len() > 0 && s[0] == '+' {
        parse_digits(s, 1, max)
    } else {
        assert(s@.subrange(0, s.len() as int) == s@);
        parse_digits(s, 0, max)
    }
}

/// Reads a signed 32-bit decimal number.
pub fn parse_i32(s: &Vec<char>) -> (r: Option<i32>)
    ensures
        r == spec_parse_i32(s@),
{
    if s.len() > 0 && s[0] == '-' {
        match parse_digits(s, 1, 0x8000_0000) {
            Some(v) => Some((-(v as i64)) as i32),
            None => None,
        }
    } else {
        match parse_unsigned(s, 0x7fff_ffff) {
            Some(v) => Some(v as i32),
            None => None,
        }
    }
}

/// Cuts `s` at every occurrence of `sep`.
pub fn split_chars(s: &Vec<char>, sep: char) -> (parts: Vec<Vec<char>>)
    ensures
        spec_views(parts@) == spec_split(s@, sep),
{
    let mut parts: Vec<Vec<char>> = Vec::new();
    let mut cur: Vec<char> = Vec::new();
    let mut i: usize = 0;
    while i < s.len()
        invariant
            i <= s.len(),
            spec_views(parts@).push(cur@) == spec_split(s@.subrange(0, i as int), sep),
        decreases s.len() - i,
    {
        let c = s[i];
        let ghost upto = s@.subrange(0, i + 1);
        let ghost before = spec_split(s@.subrange(0, i as int), sep);
        assert(upto.drop_last() == s@.subrange(0, i as int));
        assert(upto.last() == c);
        if c == sep {
            let ghost old_parts = parts@;
            let ghost old_cur = cur@;
            parts.push(cur);
            cur = Vec::new();
            assert(spec_views(parts@) == spec_views(old_parts).push(old_cur));
            assert(cur@ == Seq::<char>::empty());
        } else {
            cur.push(c);
            assert(spec_views(parts@).push(cur@) == before.update(
                before.len() - 1,
                before.last().push(c),
            ));
        }
        i += 1;
    }
    assert(s@.subrange(0, s.len() as int) == s@);
    let ghost old_parts = parts@;
    parts.push(cur);
    assert(spec_views(parts@) == spec_views(old_parts).push(cur@));
    parts
}


/// A copy of `s[from..to]`.
pub fn copy_chars(s: &Vec<char>, from: usize, to: usize) -> (out: Vec<char>)
    requires
        from <= to <= s.len(),
    ensures
        out@ == s@.subrange(from as int, to as int),
{
    let mut out: Vec<char> = Vec::new();
    let mut i: usize = from;
    while i < to
        invariant
            from <= i <= to <= s.len(),
            out@ == s@.subrange(from as int, i as int),
        decreases to - i,
    {
        out.push(s[i]);
        i += 1;
        assert(out@ =~= s@.subrange(from as int, i as int));
    }
    out
}

/// A line without the carriage return that may end it.
pub fn strip_cr(line: Vec<char>) -> (out: Vec<char>)
    ensures
        out@ == spec_strip_cr(line@),
{
    let n = line.len();
    if n > 0 && line[n - 1] == '\r' {
        copy_chars(&line, 0, n - 1)
    } else {
        line
    }
}

/// The lines of a text.
pub fn lines(text: &Vec<char>) -> (out: Vec<Vec<char>>)
    ensures
        spec_views(out@) == spec_lines(text@),
{
    let mut pieces = split_chars(text, '\n');
    proof {
        lemma_split_nonempty(text@, '\n');
    }
    let ghost all = spec_views(pieces@);
    assert(all.len() == pieces@.len());
    let n = pieces.len();
    assert(all.last() == pieces@[n - 1]@);
    if pieces[n - 1].len() == 0 {
        pieces.pop();
        assert(spec_views(pieces@) == all.drop_last());
    }
    let ghost kept = spec_views(pieces@);
    let mut out: Vec<Vec<char>> = Vec::new();
    let mut i: usize = 0;
    while i < pieces.len()
        invariant
            i <= pieces.len(),
            kept == spec_views(pieces@),
            spec_views(out@) == kept.subrange(0, i as int).map_values(
                |l: Seq<char>| spec_strip_cr(l),
            ),
        decreases pieces.len() - i,
    {
        let piece = copy_chars(&pieces[i], 0, pieces[i].len());
        assert(piece@ == pieces@[i as int]@);
        let ghost before = out@;
        let ghost target = kept.subrange(0, i + 1).map_values(|l: Seq<char>| spec_strip_cr(l));
        assert(kept.len() == pieces@.len());
        assert(kept[i as int] == pieces@[i as int]@);
        assert(spec_views(before).len() == before.len());
        assert(kept.subrange(0, i as int).map_values(|l: Seq<char>| spec_strip_cr(l)).len() == i);
        out.push(strip_cr(piece));
        i += 1;
        assert(out@.len() == before.len() + 1);
        assert(spec_views(out@).len() == out@.len());
        assert(target.len() == i);
        assert(spec_views(out@).len() == target.len());
        assert forall|j: int| 0 <= j < target.len() implies spec_views(out@)[j] == target[j] by {
            if j < i - 1 {
                assert(spec_views(before)[j] == before[j]@);
                assert(kept.subrange(0, i - 1).map_values(|l: Seq<char>| spec_strip_cr(l))[j]
                    == spec_strip_cr(kept[j]));
            }
        }
        assert(spec_views(out@) =~= target);
    }
    assert(kept.subrange(0, pieces.len() as int) == kept);
    out
}

/// The first line of a text, if it has one.
pub fn first_line(text: &Vec<char>) -> (r: Option<Vec<char>>)
    ensures
        spec_lines(text@).len() == 0 ==> r is None,
        spec_lines(text@).len() > 0 ==> (r matches Some(l) && l@ == spec_lines(text@)[0]),
{
    let mut all = lines(text);
    if all.len() == 0 {
        None
    } else {
        assert(spec_views(all@)[0] == all@[0]@);
        let l = copy_chars(&all[0], 0, all[0].len());
        Some(l)
    }
}

/// Whether two string slices hold the same characters.
pub fn str_equal(a: &str, b: &str) -> (eq: bool)
    ensures
        eq == (a@ == b@),
{
    let x = to_chars(a);
    let y = to_chars(b);
    chars_equal(&x, &y)
}

/// Whether two character vectors hold the same characters.
pub fn chars_equal(x: &Vec<char>, y: &Vec<char>) -> (eq: bool)
    ensures
        eq == (x@ == y@),
{
    if x.len() != y.len() {
        return false;
    }
    let mut i: usize = 0;
    while i < x.len()
        invariant
            i <= x.len(),
            x.len() == y.len(),
            x@.subrange(0, i as int) == y@.subrange(0, i as int),
        decreases x.len() - i,
    {
        if x[i] != y[i] {
            return false;
        }
        i += 1;
        assert(x@.subrange(0, i as int) =~= y@.subrange(0, i as int)) by {
            assert(x@.subrange(0, i as int) == x@.subrange(0, i - 1).push(x@[i - 1]));
            assert(y@.subrange(0, i as int) == y@.subrange(0, i - 1).push(y@[i - 1]));
        }
    }
    assert(x@.subrange(0, x.len() as int) == x@);
    assert(y@.subrange(0, y.len() as int) == y@);
    true
}


/// How `a` stands to `b` from index `i` on, given that they agree before
/// it, in the order of texts: character by character, a text before any
/// text that it starts. Negative if `a` comes first, positive if `b` does,
/// zero if they are equal.
pub open spec fn spec_text_order_from(a: Seq<char>, b: Seq<char>, i: int) -> int
    decreases a.len() - i,
{
    if i >= a.len() {
        if i >= b.len() {
            0
        } else {
            -1
        }
    } else if i >= b.len() {
        1
    } else if a[i] < b[i] {
        -1
    } else if a[i] > b[i] {
        1
    } else {
        spec_text_order_from(a, b, i + 1)
    }
}

/// How `a` stands to `b` in the order of texts.
pub open spec fn spec_text_order(a: Seq<char>, b: Seq<char>) -> int {
    spec_text_order_from(a, b, 0)
}

/// The order of texts is the same read from either side.
pub proof fn lemma_text_order_flip(a: Seq<char>, b: Seq<char>, i: int)
    requires
        0 <= i,
    ensures
        spec_text_order_from(a, b, i) == -spec_text_order_from(b, a, i),
        -1 <= spec_text_order_from(a, b, i) <= 1,
    decreases a.len() - i,
{
    if i < a.len() && i < b.len() && a[i] == b[i] {
        lemma_text_order_flip(a, b, i + 1);
    }
}

/// The order of texts is transitive, strictly so where one of the two steps
/// is strict.
pub proof fn lemma_text_order_trans(a: Seq<char>, b: Seq<char>, c: Seq<char>, i: int)
    requires
        0 <= i,
        spec_text_order_from(a, b, i) <= 0,
        spec_text_order_from(b, c, i) <= 0,
    ensures
        spec_text_order_from(a, c, i) <= 0,
        spec_text_order_from(a, b, i) < 0 || spec_text_order_from(b, c, i) < 0
            ==> spec_text_order_from(a, c, i) < 0,
    decreases a.len() - i,
{
    if i < a.len() && i < b.len() && i < c.len() && a[i] == b[i] && b[i] == c[i] {
        lemma_text_order_trans(a, b, c, i + 1);
    }
}

/// How `a` stands to `b` in the order of texts: -1, 0 or 1.
pub fn text_order(a: &Vec<char>, b: &Vec<char>) -> (r: i8)
    ensures
        r == spec_text_order(a@, b@),
{
    let mut i: usize = 0;
    loop
        invariant
            i <= a.len(),
            i <= b.len(),
            spec_text_order(a@, b@) == spec_text_order_from(a@, b@, i as int),
        decreases a.len() - i,
    {
        if i >= a.len() {
            if i >= b.len() {
                return 0;
            } else {
                return -1;
            }
        } else if i >= b.len() {
            return 1;
        } else if a[i] < b[i] {
            return -1;
        } else if a[i] > b[i] {
            return 1;
        }
        i += 1;
    }
}

} // verus!
