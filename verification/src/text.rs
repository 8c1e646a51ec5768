//! Text as sequences of characters: searching, splitting, trimming and decimal
//! numbers.
use vstd::prelude::*;
use vstd::slice::slice_subrange;
use vstd::string::*;

verus! {

/// `String::push`: appends one character at the end of the string.
pub assume_specification[ String::push ](s: &mut String, c: char)
    ensures
        final(s)@ == old(s)@.push(c),
;

/// The texts of a list of strings.
pub open spec fn texts(v: Seq<String>) -> Seq<Seq<char>> {
    v.map_values(|s: String| s@)
}

/// The position of the first `c` in `s`, or `s.len()` where there is none.
pub open spec fn first_pos(s: Seq<char>, c: char) -> int
    decreases s.len(),
{
    if s.len() == 0 || s[0] == c {
        0
    } else {
        1 + first_pos(s.drop_first(), c)
    }
}

/// The position of the last `c` in `s`, or `-1` where there is none.
pub open spec fn last_pos(s: Seq<char>, c: char) -> int
    decreases s.len(),
{
    if s.len() == 0 {
        -1
    } else if s.last() == c {
        s.len() - 1
    } else {
        last_pos(s.drop_last(), c)
    }
}

/// What stands before and after the last `c` in `s`.
pub open spec fn rsplit_once(s: Seq<char>, c: char) -> Option<(Seq<char>, Seq<char>)> {
    let i = last_pos(s, c);
    if i < 0 {
        None
    } else {
        Some((s.take(i), s.skip(i + 1)))
    }
}

/// The pieces of `s` between the first `n - 1` occurrences of `c`; the last piece
/// is all that is left.
pub open spec fn splitn(s: Seq<char>, n: nat, c: char) -> Seq<Seq<char>>
    decreases n,
{
    let i = first_pos(s, c);
    if n <= 1 || i >= s.len() {
        seq![s]
    } else {
        seq![s.take(i)] + splitn(s.skip(i + 1), (n - 1) as nat, c)
    }
}

/// The pieces of `s` between all occurrences of `c`.
pub open spec fn split(s: Seq<char>, c: char) -> Seq<Seq<char>>
    decreases s.len(),
{
    let i = first_pos(s, c);
    if 0 <= i < s.len() {
        seq![s.take(i)] + split(s.skip(i + 1), c)
    } else {
        seq![s]
    }
}

/// The characters with the Unicode property White_Space.
pub open spec fn is_white(c: char) -> bool {
    let u = c as int;
    ||| 0x09 <= u <= 0x0d
    ||| u == 0x20
    ||| u == 0x85
    ||| u == 0xa0
    ||| u == 0x1680
    ||| 0x2000 <= u <= 0x200a
    ||| u == 0x2028
    ||| u == 0x2029
    ||| u == 0x202f
    ||| u == 0x205f
    ||| u == 0x3000
}

/// `s` without its leading white space.
pub open spec fn trim_start(s: Seq<char>) -> Seq<char>
    decreases s.len(),
{
    if s.len() > 0 && is_white(s[0]) {
        trim_start(s.drop_first())
    } else {
        s
    }
}

/// `s` without its trailing white space.
pub open spec fn trim_end(s: Seq<char>) -> Seq<char>
    decreases s.len(),
{
    if s.len() > 0 && is_white(s.last()) {
        trim_end(s.drop_last())
    } else {
        s
    }
}

/// `s` without white space at either end.
pub open spec fn trim(s: Seq<char>) -> Seq<char> {
    trim_end(trim_start(s))
}

/// The character of a decimal digit.
pub open spec fn digit_char(d: nat) -> char {
    (d + 48) as char
}

/// Whether `c` is one of the ASCII digits.
pub open spec fn is_digit(c: char) -> bool {
    48 <= c as int <= 57
}

/// The decimal notation of `n`, without leading zeros.
pub open spec fn decimal(n: nat) -> Seq<char>
    decreases n,
{
    if n < 10 {
        seq![digit_char(n)]
    } else {
        decimal(n / 10).push(digit_char(n % 10))
    }
}

/// The number that a row of decimal digits denotes.
pub open spec fn digits_value(s: Seq<char>) -> nat
    decreases s.len(),
{
    if s.len() == 0 {
        0
    } else {
        (digits_value(s.drop_last()) * 10 + (s.last() as int - 48)) as nat
    }
}

/// The digits of a number: what follows an optional leading `+`.
pub open spec fn number_digits(s: Seq<char>) -> Seq<char> {
    if s.len() > 0 && s[0] == '+' {
        s.drop_first()
    } else {
        s
    }
}

/// The number that `s` denotes: an optional `+` and then one or more decimal digits,
/// nothing else.
pub open spec fn number(s: Seq<char>) -> Option<nat> {
    let d = number_digits(s);
    if d.len() > 0 && (forall|i: int| 0 <= i < d.len() ==> is_digit(#[trigger] d[i])) {
        Some(digits_value(d))
    } else {
        None
    }
}

/// The number that `s` denotes, where it is at most `max`.
pub open spec fn number_up_to(s: Seq<char>, max: nat) -> Option<nat> {
    match number(s) {
        Some(n) => if n <= max {
            Some(n)
        } else {
            None
        },
        None => None,
    }
}

/// The number that `s` denotes, where it is at most `max`, and zero otherwise.
pub open spec fn number_or_zero(s: Seq<char>, max: nat) -> nat {
    match number_up_to(s, max) {
        Some(n) => n,
        None => 0,
    }
}

/// `first_pos` finds the first occurrence, and only that.
pub proof fn lemma_first_pos(s: Seq<char>, c: char)
    ensures
        0 <= first_pos(s, c) <= s.len(),
        first_pos(s, c) < s.len() ==> s[first_pos(s, c)] == c,
        forall|j: int| 0 <= j < first_pos(s, c) ==> #[trigger] s[j] != c,
        first_pos(s, c) < s.len() <==> s.contains(c),
    decreases s.len(),
{
    if s.len() > 0 && s[0] != c {
        let rest = s.drop_first();
        lemma_first_pos(rest, c);
        assert forall|j: int| 0 <= j < first_pos(s, c) implies #[trigger] s[j] != c by {
            if j > 0 {
                assert(rest[j - 1] == s[j]);
            }
        }
        if s.contains(c) {
            let j = choose|j: int| 0 <= j < s.len() && s[j] == c;
            assert(rest[j - 1] == c);
        }
    }
}

/// A position that holds `c` and has no `c` before it is the first one.
pub proof fn lemma_first_pos_unique(s: Seq<char>, c: char, i: int)
    requires
        0 <= i <= s.len(),
        i < s.len() ==> s[i] == c,
        forall|j: int| 0 <= j < i ==> #[trigger] s[j] != c,
    ensures
        first_pos(s, c) == i,
{
    lemma_first_pos(s, c);
    let p = first_pos(s, c);
    if p < i {
        assert(s[p] != c);
    }
    if i < p {
        assert(s[i] != c);
    }
}

/// `last_pos` finds the last occurrence, and only that.
pub proof fn lemma_last_pos(s: Seq<char>, c: char)
    ensures
        -1 <= last_pos(s, c) < s.len(),
        last_pos(s, c) >= 0 ==> s[last_pos(s, c)] == c,
        forall|j: int| last_pos(s, c) < j < s.len() ==> #[trigger] s[j] != c,
        last_pos(s, c) >= 0 <==> s.contains(c),
    decreases s.len(),
{
    if s.len() > 0 && s.last() != c {
        let front = s.drop_last();
        lemma_last_pos(front, c);
        assert forall|j: int| last_pos(s, c) < j < s.len() implies #[trigger] s[j] != c by {
            if j < front.len() {
                assert(front[j] == s[j]);
            }
        }
        if s.contains(c) {
            let j = choose|j: int| 0 <= j < s.len() && s[j] == c;
            assert(front[j] == c);
        }
    }
}

/// Splitting at the last `c` succeeds exactly where there is one; the two parts with
/// `c` between them are the whole, and the second part holds no `c`.
pub proof fn law_rsplit_once(s: Seq<char>, c: char)
    ensures
        rsplit_once(s, c) is None <==> !s.contains(c),
        rsplit_once(s, c) matches Some((h, t)) ==> s == h.push(c) + t && !t.contains(c),
{
    lemma_last_pos(s, c);
    if let Some((h, t)) = rsplit_once(s, c) {
        let i = last_pos(s, c);
        assert(s =~= h.push(c) + t);
        assert forall|j: int| 0 <= j < t.len() implies #[trigger] t[j] != c by {
            assert(t[j] == s[i + 1 + j]);
        }
    }
}

/// Splitting at the last `c` takes apart what was joined by a `c`, where the second part
/// holds none.
pub proof fn law_rsplit_joined(head: Seq<char>, c: char, tail: Seq<char>)
    requires
        !tail.contains(c),
    ensures
        rsplit_once(head.push(c) + tail, c) == Some((head, tail)),
{
    let s = head.push(c) + tail;
    let i = last_pos(s, c);
    lemma_last_pos(s, c);
    assert(s[head.len() as int] == c);
    if i > head.len() {
        assert(s[i] == tail[i - head.len() - 1]);
        assert(tail.contains(c));
    }
    assert(s.take(i) =~= head);
    assert(s.skip(i + 1) =~= tail);
}

/// The characters of `s`, in order.
pub fn chars_of(s: &str) -> (out: Vec<char>)
    ensures
        out@ == s@,
{
    let mut out: Vec<char> = Vec::new();
    for c in it: s.chars()
        invariant
            out@ == it.seq().take(it.index() as int),
            it.seq() == s@,
    {
        out.push(c);
    }
    out
}

/// The string made of `chars`.
pub fn string_of(chars: &[char]) -> (out: String)
    ensures
        out@ == chars@,
{
    let mut out = String::new();
    for i in 0..chars.len()
        invariant
            out@ == chars@.take(i as int),
    {
        out.push(chars[i]);
    }
    assert(chars@.take(chars@.len() as int) =~= chars@);
    out
}

/// Whether two strings hold the same text.
pub fn same_text(a: &str, b: &str) -> (same: bool)
    ensures
        same == (a@ == b@),
{
    a.to_owned() == b.to_owned()
}

/// Whether `s` begins with `prefix`.
pub fn starts_with(s: &str, prefix: &str) -> (yes: bool)
    ensures
        yes == prefix@.is_prefix_of(s@),
{
    let a = chars_of(s);
    let b = chars_of(prefix);
    if a.len() < b.len() {
        return false;
    }
    for i in 0..b.len()
        invariant
            a@ == s@,
            b@ == prefix@,
            b@.len() <= a@.len(),
            forall|j: int| 0 <= j < i ==> a@[j] == b@[j],
    {
        if a[i] != b[i] {
            assert(s@.subrange(0, prefix@.len() as int)[i as int] != prefix@[i as int]);
            return false;
        }
    }
    assert(s@.subrange(0, prefix@.len() as int) =~= prefix@);
    true
}

/// The first position of `c`, or the length where there is none.
pub fn find_first(s: &[char], c: char) -> (pos: usize)
    ensures
        pos == first_pos(s@, c),
{
    let mut i: usize = 0;
    while i < s.len() && s[i] != c
        invariant
            0 <= i <= s@.len(),
            forall|j: int| 0 <= j < i ==> #[trigger] s@[j] != c,
        decreases s@.len() - i,
    {
        i += 1;
    }
    proof {
        lemma_first_pos_unique(s@, c, i as int);
    }
    i
}

/// The last position of `c`.
pub fn find_last(s: &[char], c: char) -> (pos: Option<usize>)
    ensures
        match pos {
            Some(i) => i == last_pos(s@, c),
            None => last_pos(s@, c) == -1,
        },
{
    let mut i: usize = s.len();
    assert(s@.take(i as int) =~= s@);
    while i > 0
        invariant
            0 <= i <= s@.len(),
            last_pos(s@, c) == last_pos(s@.take(i as int), c),
        decreases i,
    {
        let ghost front = s@.take(i as int);
        assert(front.drop_last() =~= s@.take(i - 1));
        if s[i - 1] == c {
            assert(front.last() == c);
            return Some(i - 1);
        }
        i -= 1;
    }
    None
}

/// The texts before and after the last `c`.
pub fn split_last(s: &str, c: char) -> (parts: Option<(String, String)>)
    ensures
        match parts {
            Some((h, t)) => rsplit_once(s@, c) == Some((h@, t@)),
            None => rsplit_once(s@, c) is None,
        },
{
    let chars = chars_of(s);
    let len: usize = chars.len();
    match find_last(chars.as_slice(), c) {
        Some(i) => {
            proof {
                lemma_last_pos(s@, c);
            }
            let head = string_of(slice_subrange(chars.as_slice(), 0, i));
            let tail = string_of(slice_subrange(chars.as_slice(), i + 1, len));
            Some((head, tail))
        },
        None => None,
    }
}

/// The pieces of `s` at the first `n - 1` occurrences of `c`.
pub fn split_pieces(s: &[char], n: usize, c: char) -> (out: Vec<String>)
    requires
        n > 0,
    ensures
        texts(out@) == splitn(s@, n as nat, c),
{
    let mut out: Vec<String> = Vec::new();
    let mut start: usize = 0;
    let mut left: usize = n;
    let ghost whole = splitn(s@, n as nat, c);
    assert(s@.skip(0) =~= s@);
    assert(texts(out@) + splitn(s@, n as nat, c) =~= whole);
    loop
        invariant
            0 <= start <= s@.len(),
            left > 0,
            whole == splitn(s@, n as nat, c),
            texts(out@) + splitn(s@.skip(start as int), left as nat, c) == whole,
        decreases left,
    {
        let rest = slice_subrange(s, start, s.len());
        assert(rest@ =~= s@.skip(start as int));
        let i = find_first(rest, c);
        proof {
            lemma_first_pos(rest@, c);
        }
        let ghost before = out@;
        if left == 1 || i >= rest.len() {
            out.push(string_of(rest));
            assert(splitn(rest@, left as nat, c) == seq![rest@]);
            assert(texts(out@) =~= texts(before) + seq![rest@]);
            return out;
        }
        out.push(string_of(slice_subrange(rest, 0, i)));
        assert(texts(out@) =~= texts(before) + seq![rest@.take(i as int)]);
        assert(rest@.skip(i + 1) =~= s@.skip(start + i + 1));
        assert(texts(before) + (seq![rest@.take(i as int)] + splitn(
            rest@.skip(i + 1),
            (left - 1) as nat,
            c,
        )) =~= texts(out@) + splitn(s@.skip(start + i + 1), (left - 1) as nat, c));
        start = start + i + 1;
        left -= 1;
    }
}

/// The pieces of `s` between all occurrences of `c`.
pub fn split_all(s: &[char], c: char) -> (out: Vec<String>)
    ensures
        texts(out@) == split(s@, c),
{
    let mut out: Vec<String> = Vec::new();
    let mut start: usize = 0;
    let ghost whole = split(s@, c);
    assert(s@.skip(0) =~= s@);
    assert(texts(out@) + split(s@, c) =~= whole);
    loop
        invariant
            0 <= start <= s@.len(),
            whole == split(s@, c),
            texts(out@) + split(s@.skip(start as int), c) == whole,
        decreases s@.len() - start,
    {
        let rest = slice_subrange(s, start, s.len());
        assert(rest@ =~= s@.skip(start as int));
        let i = find_first(rest, c);
        proof {
            lemma_first_pos(rest@, c);
        }
        let ghost before = out@;
        if i >= rest.len() {
            out.push(string_of(rest));
            assert(split(rest@, c) == seq![rest@]);
            assert(texts(out@) =~= texts(before) + seq![rest@]);
            return out;
        }
        out.push(string_of(slice_subrange(rest, 0, i)));
        assert(texts(out@) =~= texts(before) + seq![rest@.take(i as int)]);
        assert(rest@.skip(i + 1) =~= s@.skip(start + i + 1));
        assert(texts(before) + (seq![rest@.take(i as int)] + split(rest@.skip(i + 1), c))
            =~= texts(out@) + split(s@.skip(start + i + 1), c));
        start = start + i + 1;
    }
}

/// The code point of `c`.
fn code_of(c: char) -> (u: u32)
    ensures
        u == c as int,
{
    c as u32
}

/// Whether `c` has the Unicode property White_Space.
pub fn char_is_white(c: char) -> (white: bool)
    ensures
        white == is_white(c),
{
    let u: u32 = code_of(c);
    (0x09 <= u && u <= 0x0d) || u == 0x20 || u == 0x85 || u == 0xa0 || u == 0x1680 || (0x2000 <= u
        && u <= 0x200a) || u == 0x2028 || u == 0x2029 || u == 0x202f || u == 0x205f || u == 0x3000
}

/// `s` without white space at either end.
pub fn trimmed(s: &str) -> (out: Vec<char>)
    ensures
        out@ == trim(s@),
{
    let chars = chars_of(s);
    let mut from: usize = 0;
    assert(chars@.skip(0) =~= chars@);
    while from < chars.len() && char_is_white(chars[from])
        invariant
            0 <= from <= chars@.len(),
            trim_start(chars@.skip(from as int)) == trim_start(chars@),
        decreases chars@.len() - from,
    {
        assert(chars@.skip(from as int).drop_first() =~= chars@.skip(from + 1));
        from += 1;
    }
    let ghost mid = chars@.skip(from as int);
    assert(trim_start(mid) == mid);
    let mut to: usize = chars.len();
    assert(chars@.subrange(from as int, to as int) =~= mid);
    while to > from && char_is_white(chars[to - 1])
        invariant
            from <= to <= chars@.len(),
            trim_end(chars@.subrange(from as int, to as int)) == trim_end(mid),
        decreases to,
    {
        assert(chars@.subrange(from as int, to as int).drop_last() =~= chars@.subrange(
            from as int,
            to - 1,
        ));
        to -= 1;
    }
    let ghost inner = chars@.subrange(from as int, to as int);
    assert(trim_end(inner) == inner);
    let mut out: Vec<char> = Vec::new();
    let mut i: usize = from;
    while i < to
        invariant
            from <= i <= to <= chars@.len(),
            out@ == chars@.subrange(from as int, i as int),
        decreases to - i,
    {
        out.push(chars[i]);
        i += 1;
    }
    out
}

/// The character of a decimal digit.
fn digit_of(d: u8) -> (c: char)
    requires
        d < 10,
    ensures
        c == digit_char(d as nat),
{
    (d + 48) as char
}

/// The decimal notation of `n`.
pub fn decimal_of(n: u64) -> (out: String)
    ensures
        out@ == decimal(n as nat),
    decreases n,
{
    if n < 10 {
        let mut out = String::new();
        out.push(digit_of(n as u8));
        assert(out@ =~= decimal(n as nat));
        out
    } else {
        let mut out = decimal_of(n / 10);
        out.push(digit_of((n % 10) as u8));
        out
    }
}

/// The number that `s` denotes, where it is at most `max`, and zero otherwise.
pub fn parse_or_zero(s: &str, max: u64) -> (n: u64)
    ensures
        n == number_or_zero(s@, max as nat),
        n <= max,
{
    match parse_number(s, max) {
        Some(v) => v,
        None => 0,
    }
}

/// The number that `s` denotes, where it is at most `max`.
pub fn parse_number(s: &str, max: u64) -> (n: Option<u64>)
    ensures
        match n {
            Some(v) => number_up_to(s@, max as nat) == Some(v as nat),
            None => number_up_to(s@, max as nat) is None,
        },
{
    let chars = chars_of(s);
    let from: usize = if chars.len() > 0 && chars[0] == '+' {
        1
    } else {
        0
    };
    let ghost d = number_digits(s@);
    assert(d =~= chars@.skip(from as int));
    if from >= chars.len() {
        return None;
    }
    let mut i: usize = from;
    let mut value: u64 = 0;
    let mut over: bool = false;
    while i < chars.len()
        invariant
            from <= i <= chars@.len(),
            d == chars@.skip(from as int),
            d == number_digits(chars@),
            chars@ == s@,
            forall|j: int| 0 <= j < i - from ==> is_digit(#[trigger] d[j]),
            over ==> digits_value(d.take(i - from)) > max,
            !over ==> value == digits_value(d.take(i - from)) && value <= max,
        decreases chars@.len() - i,
    {
        let c = chars[i];
        let u: u32 = code_of(c);
        assert(d[i - from] == c);
        if u < 48 || u > 57 {
            assert(!is_digit(d[i - from]));
            return None;
        }
        let ghost t = d.take(i - from + 1);
        assert(t.drop_last() =~= d.take(i - from));
        assert(t.last() == c);
        if !over {
            let wide: u128 = value as u128 * 10 + (u - 48) as u128;
            assert(wide == digits_value(t));
            if wide > max as u128 {
                over = true;
            } else {
                value = wide as u64;
            }
        }
        i += 1;
    }
    assert(d.take(d.len() as int) =~= d);
    if over {
        None
    } else {
        Some(value)
    }
}

/// Decimal notation consists of digits, at least one, and denotes the number.
pub proof fn lemma_decimal(n: nat)
    ensures
        decimal(n).len() > 0,
        forall|i: int| 0 <= i < decimal(n).len() ==> is_digit(#[trigger] decimal(n)[i]),
        digits_value(decimal(n)) == n,
    decreases n,
{
    if n < 10 {
        let s = decimal(n);
        assert(s.drop_last() =~= Seq::<char>::empty());
        assert(digits_value(s.drop_last()) == 0);
        assert(s.last() as int == n + 48);
    } else {
        lemma_decimal(n / 10);
        let s = decimal(n);
        assert(s.drop_last() =~= decimal(n / 10));
        assert(s.last() == digit_char(n % 10));
        assert(s.last() as int == n % 10 + 48);
        assert forall|i: int| 0 <= i < s.len() implies is_digit(#[trigger] s[i]) by {
            if i < s.len() - 1 {
                assert(s[i] == decimal(n / 10)[i]);
            }
        }
    }
}

/// Reading the decimal notation of a number gives back the number.
pub proof fn law_decimal_round_trip(n: nat)
    ensures
        number(decimal(n)) == Some(n),
{
    lemma_decimal(n);
    assert(is_digit(decimal(n)[0]));
    assert(decimal(n)[0] != '+');
}

/// Decimal notation holds digits only, so none of any other character.
pub proof fn lemma_decimal_without(n: nat, c: char)
    requires
        !is_digit(c),
    ensures
        !decimal(n).contains(c),
{
    lemma_decimal(n);
    if decimal(n).contains(c) {
        let i = choose|i: int| 0 <= i < decimal(n).len() && decimal(n)[i] == c;
        assert(is_digit(decimal(n)[i]));
    }
}

/// The texts of a list of strings are those of the strings, one by one.
pub proof fn law_texts(v: Seq<String>)
    ensures
        texts(v).len() == v.len(),
        forall|i: int| 0 <= i < v.len() ==> #[trigger] texts(v)[i] == v[i]@,
{
}

/// The pieces with a `c` between each two of them.
pub open spec fn joined(pieces: Seq<Seq<char>>, c: char) -> Seq<char>
    decreases pieces.len(),
{
    if pieces.len() == 0 {
        seq![]
    } else if pieces.len() == 1 {
        pieces[0]
    } else {
        pieces[0].push(c) + joined(pieces.drop_first(), c)
    }
}

/// Joining a piece and more pieces puts a `c` behind the first one.
proof fn lemma_joined_head(head: Seq<char>, rest: Seq<Seq<char>>, c: char)
    requires
        rest.len() > 0,
    ensures
        joined(seq![head] + rest, c) == head.push(c) + joined(rest, c),
{
    assert((seq![head] + rest).drop_first() =~= rest);
}

/// The first `c` of what was joined stands behind the first piece.
proof fn lemma_first_pos_joined(head: Seq<char>, rest: Seq<char>, c: char)
    requires
        !head.contains(c),
    ensures
        first_pos(head.push(c) + rest, c) == head.len(),
        (head.push(c) + rest).take(head.len() as int) == head,
        (head.push(c) + rest).skip(head.len() as int + 1) == rest,
{
    let s = head.push(c) + rest;
    assert forall|j: int| 0 <= j < head.len() implies #[trigger] s[j] != c by {
        assert(s[j] == head[j]);
        assert(head.contains(head[j]));
    }
    assert(s[head.len() as int] == c);
    lemma_first_pos_unique(s, c, head.len() as int);
    assert(s.take(head.len() as int) =~= head);
    assert(s.skip(head.len() as int + 1) =~= rest);
}

proof fn lemma_first_pos_absent(s: Seq<char>, c: char)
    requires
        !s.contains(c),
    ensures
        first_pos(s, c) == s.len(),
{
    lemma_first_pos(s, c);
}

/// The pieces of a text, joined again, are the text, and none of them holds a `c`.
pub proof fn law_split(s: Seq<char>, c: char)
    ensures
        split(s, c).len() > 0,
        joined(split(s, c), c) == s,
        forall|i: int| 0 <= i < split(s, c).len() ==> !(#[trigger] split(s, c)[i]).contains(c),
    decreases s.len(),
{
    lemma_first_pos(s, c);
    let i = first_pos(s, c);
    if i < s.len() {
        let head = s.take(i);
        let rest = s.skip(i + 1);
        law_split(rest, c);
        lemma_joined_head(head, split(rest, c), c);
        assert(head.push(c) + rest =~= s);
        assert(!head.contains(c));
        assert forall|k: int| 0 <= k < split(s, c).len() implies !(#[trigger] split(
            s,
            c,
        )[k]).contains(c) by {
            if k > 0 {
                assert(split(s, c)[k] == split(rest, c)[k - 1]);
            }
        }
    }
}

/// What was joined from pieces without a `c` is split into those pieces.
pub proof fn law_split_joined(pieces: Seq<Seq<char>>, c: char)
    requires
        pieces.len() > 0,
        forall|i: int| 0 <= i < pieces.len() ==> !(#[trigger] pieces[i]).contains(c),
    ensures
        split(joined(pieces, c), c) == pieces,
    decreases pieces.len(),
{
    if pieces.len() == 1 {
        lemma_first_pos_absent(pieces[0], c);
        assert(split(pieces[0], c) =~= pieces);
    } else {
        let rest = pieces.drop_first();
        assert forall|i: int| 0 <= i < rest.len() implies !(#[trigger] rest[i]).contains(c) by {
            assert(rest[i] == pieces[i + 1]);
        }
        law_split_joined(rest, c);
        lemma_first_pos_joined(pieces[0], joined(rest, c), c);
        assert(split(joined(pieces, c), c) =~= seq![pieces[0]] + rest);
        assert(seq![pieces[0]] + rest =~= pieces);
    }
}

/// The first pieces of a text, joined again, are the text; there are at most `n`, none but the
/// last holds a `c`, and the last holds one only where there are `n`.
pub proof fn law_splitn(s: Seq<char>, n: nat, c: char)
    requires
        n > 0,
    ensures
        0 < splitn(s, n, c).len() <= n,
        joined(splitn(s, n, c), c) == s,
        forall|i: int|
            0 <= i < splitn(s, n, c).len() - 1 ==> !(#[trigger] splitn(s, n, c)[i]).contains(c),
        splitn(s, n, c).len() < n ==> !splitn(s, n, c).last().contains(c),
    decreases n,
{
    lemma_first_pos(s, c);
    let i = first_pos(s, c);
    if n > 1 && i < s.len() {
        let head = s.take(i);
        let rest = s.skip(i + 1);
        let more = splitn(rest, (n - 1) as nat, c);
        law_splitn(rest, (n - 1) as nat, c);
        lemma_joined_head(head, more, c);
        assert(head.push(c) + rest =~= s);
        assert(!head.contains(c));
        assert(splitn(s, n, c).last() == more.last());
        assert forall|k: int| 0 <= k < splitn(s, n, c).len() - 1 implies !(#[trigger] splitn(
            s,
            n,
            c,
        )[k]).contains(c) by {
            if k > 0 {
                assert(splitn(s, n, c)[k] == more[k - 1]);
            }
        }
    }
}

/// What was joined from at most `n` pieces is split into those pieces, where none but the last
/// holds a `c`, and the last holds one only where there are `n`.
pub proof fn law_splitn_joined(pieces: Seq<Seq<char>>, n: nat, c: char)
    requires
        0 < pieces.len() <= n,
        forall|i: int| 0 <= i < pieces.len() - 1 ==> !(#[trigger] pieces[i]).contains(c),
        pieces.len() < n ==> !pieces.last().contains(c),
    ensures
        splitn(joined(pieces, c), n, c) == pieces,
    decreases pieces.len(),
{
    if pieces.len() == 1 {
        if n > 1 {
            lemma_first_pos_absent(pieces[0], c);
        }
        assert(splitn(pieces[0], n, c) =~= pieces);
    } else {
        let rest = pieces.drop_first();
        assert forall|i: int| 0 <= i < rest.len() - 1 implies !(#[trigger] rest[i]).contains(
            c,
        ) by {
            assert(rest[i] == pieces[i + 1]);
        }
        assert(rest.last() == pieces.last());
        law_splitn_joined(rest, (n - 1) as nat, c);
        assert(!pieces[0].contains(c));
        lemma_first_pos_joined(pieces[0], joined(rest, c), c);
        assert(seq![pieces[0]] + rest =~= pieces);
    }
}

/// Trimming takes away white space only, all that stands at the two ends and nothing between
/// them: it leaves the part from the first of the two positions up to the second.
pub proof fn law_trim(s: Seq<char>) -> (ends: (int, int))
    ensures
        0 <= ends.0 <= ends.1 <= s.len(),
        trim(s) == s.subrange(ends.0, ends.1),
        forall|i: int| 0 <= i < ends.0 ==> is_white(#[trigger] s[i]),
        forall|i: int| ends.1 <= i < s.len() ==> is_white(#[trigger] s[i]),
        ends.0 < ends.1 ==> !is_white(s[ends.0]) && !is_white(s[ends.1 - 1]),
{
    let a = lemma_trim_start(s);
    let t = s.skip(a);
    let b = lemma_trim_end(t);
    assert(t.take(b) =~= s.subrange(a, a + b));
    assert forall|i: int| a + b <= i < s.len() implies is_white(#[trigger] s[i]) by {
        assert(t[i - a] == s[i]);
    }
    if b > 0 {
        assert(t[b - 1] == s[a + b - 1]);
        assert(t[0] == s[a]);
    }
    (a, a + b)
}

proof fn lemma_trim_start(s: Seq<char>) -> (a: int)
    ensures
        0 <= a <= s.len(),
        trim_start(s) == s.skip(a),
        forall|i: int| 0 <= i < a ==> is_white(#[trigger] s[i]),
        a < s.len() ==> !is_white(s[a]),
    decreases s.len(),
{
    if s.len() > 0 && is_white(s[0]) {
        let rest = s.drop_first();
        let a = lemma_trim_start(rest);
        assert(rest.skip(a) =~= s.skip(a + 1));
        assert forall|i: int| 0 <= i < a + 1 implies is_white(#[trigger] s[i]) by {
            if i > 0 {
                assert(rest[i - 1] == s[i]);
            }
        }
        if a < rest.len() {
            assert(rest[a] == s[a + 1]);
        }
        a + 1
    } else {
        assert(s.skip(0) =~= s);
        0
    }
}

proof fn lemma_trim_end(s: Seq<char>) -> (b: int)
    ensures
        0 <= b <= s.len(),
        trim_end(s) == s.take(b),
        forall|i: int| b <= i < s.len() ==> is_white(#[trigger] s[i]),
        b > 0 ==> !is_white(s[b - 1]),
    decreases s.len(),
{
    if s.len() > 0 && is_white(s.last()) {
        let front = s.drop_last();
        let b = lemma_trim_end(front);
        assert(front.take(b) =~= s.take(b));
        assert forall|i: int| b <= i < s.len() implies is_white(#[trigger] s[i]) by {
            if i < front.len() {
                assert(front[i] == s[i]);
            }
        }
        if b > 0 {
            assert(front[b - 1] == s[b - 1]);
        }
        b
    } else {
        assert(s.take(s.len() as int) =~= s);
        s.len() as int
    }
}

/// White space is the tab, the line breaks, the space, and the spaces and separators of
/// Unicode beyond ASCII.
pub proof fn law_is_white(c: char)
    ensures
        is_white(c) == set![
            0x09int, 0x0a, 0x0b, 0x0c, 0x0d, 0x20, 0x85, 0xa0, 0x1680, 0x2000, 0x2001, 0x2002,
            0x2003, 0x2004, 0x2005, 0x2006, 0x2007, 0x2008, 0x2009, 0x200a, 0x2028, 0x2029,
            0x202f, 0x205f, 0x3000,
        ].contains(c as int),
{
}

/// Decimal notation ends with the digit of the ones, and what stands before it is the notation
/// of the tens; a number below ten is its digit alone.
pub proof fn law_decimal(n: nat)
    ensures
        decimal(n).len() > 0,
        decimal(n).last() as int == '0' as int + n % 10,
        decimal(n).drop_last() == if n < 10 {
            Seq::<char>::empty()
        } else {
            decimal(n / 10)
        },
{
    assert(decimal(n).drop_last() =~= if n < 10 {
        Seq::<char>::empty()
    } else {
        decimal(n / 10)
    });
}

/// Different numbers have different notations, and none but zero begins with a zero.
pub proof fn law_decimal_unique(m: nat, n: nat)
    ensures
        decimal(m) == decimal(n) ==> m == n,
        n > 0 ==> decimal(n)[0] != '0',
    decreases n,
{
    lemma_decimal(m);
    lemma_decimal(n);
    if n >= 10 {
        law_decimal_unique(m, n / 10);
        lemma_decimal(n / 10);
        assert(decimal(n)[0] == decimal(n / 10)[0]);
    }
}

/// A row of digits denotes ten times what it denotes without its last digit, and that digit.
pub proof fn law_digits_value(s: Seq<char>, c: char)
    requires
        '0' as int <= c as int <= '9' as int,
    ensures
        digits_value(Seq::<char>::empty()) == 0,
        digits_value(s.push(c)) == 10 * digits_value(s) + (c as int - '0' as int),
{
    assert(s.push(c).drop_last() =~= s);
}

/// One or more digits are a number, with or without a plus sign before them.
pub proof fn law_number(digits: Seq<char>)
    requires
        digits.len() > 0,
        forall|i: int|
            0 <= i < digits.len() ==> '0' as int <= (#[trigger] digits[i]) as int <= '9' as int,
    ensures
        number(digits) == Some(digits_value(digits)),
        number(seq!['+'] + digits) == Some(digits_value(digits)),
{
    assert(digits[0] != '+');
    assert((seq!['+'] + digits).drop_first() =~= digits);
    assert forall|i: int| 0 <= i < digits.len() implies is_digit(#[trigger] digits[i]) by {}
}

/// A text with anything but digits in it, apart from a plus sign at its beginning, is no
/// number; neither is the empty text, nor the plus sign alone.
pub proof fn law_no_number(s: Seq<char>, i: int)
    requires
        0 <= i < s.len(),
        !('0' as int <= s[i] as int <= '9' as int),
        i > 0 || s[0] != '+',
    ensures
        number(s) is None,
        number(Seq::<char>::empty()) is None,
        number(seq!['+']) is None,
{
    let d = number_digits(s);
    if s[0] == '+' {
        assert(d[i - 1] == s[i]);
        assert(!is_digit(d[i - 1]));
    } else {
        assert(!is_digit(d[i]));
    }
    assert(seq!['+'].drop_first().len() == 0);
}

/// A number counts up to the limit, the limit included, and not beyond it; what does not count
/// is taken for zero.
pub proof fn law_number_up_to(s: Seq<char>, max: nat)
    ensures
        forall|n: nat|
            number_up_to(s, max) == Some(n) <==> #[trigger] number(s) == Some(n) && n <= max,
        number_up_to(s, max) is None ==> number_or_zero(s, max) == 0,
        number_up_to(s, max) matches Some(n) ==> number_or_zero(s, max) == n,
{
}

} // verus!
