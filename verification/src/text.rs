//! Text primitives shared by the query language, the command compiler and the
//! ledger: splitting on a separator, and unsigned / signed decimal numbers.

use vstd::prelude::*;

verus! {

/// True when the two texts hold the same characters.
pub fn same_text(a: &str, b: &str) -> (r: bool)
    ensures
        r == (a@ == b@),
{
    let x = String::from_str(a);
    let y = String::from_str(b);
    x == y
}

/// The views of a sequence of strings.
pub open spec fn texts(v: Seq<String>) -> Seq<Seq<char>> {
    Seq::new(v.len(), |i: int| v[i]@)
}

/// The views of a sequence with one more string are the views with one more view.
pub proof fn lemma_texts_push(v: Seq<String>, s: String)
    ensures
        texts(v.push(s)) == texts(v).push(s@),
{
    assert(texts(v.push(s)) =~= texts(v).push(s@));
}

/// No strings have no views.
pub proof fn lemma_texts_empty()
    ensures
        texts(Seq::<String>::empty()) == Seq::<Seq<char>>::empty(),
{
    assert(texts(Seq::<String>::empty()) =~= Seq::<Seq<char>>::empty());
}

/// The pieces of `s` that lie between occurrences of `sep`. There is always
/// at least one piece; `n` separators give `n + 1` pieces, some possibly empty.
pub open spec fn split(s: Seq<char>, sep: char) -> Seq<Seq<char>>
    decreases s.len(),
{
    if s.len() == 0 {
        seq![Seq::<char>::empty()]
    } else {
        let front = split(s.drop_last(), sep);
        if s.last() == sep {
            front.push(Seq::<char>::empty())
        } else {
            front.update(front.len() - 1, front.last().push(s.last()))
        }
    }
}

/// Every text has at least one piece.
pub proof fn lemma_split_nonempty(s: Seq<char>, sep: char)
    ensures
        split(s, sep).len() >= 1,
    decreases s.len(),
{
    if s.len() > 0 {
        lemma_split_nonempty(s.drop_last(), sep);
    }
}

/// A text without the separator is its own single piece.
pub proof fn lemma_split_without_separator(s: Seq<char>, sep: char)
    requires
        !s.contains(sep),
    ensures
        split(s, sep) == seq![s],
    decreases s.len(),
{
    if s.len() == 0 {
        assert(s =~= Seq::<char>::empty());
    } else {
        let front = s.drop_last();
        assert forall|i: int| 0 <= i < front.len() implies front[i] != sep by {
            assert(s[i] == front[i]);
            assert(s.contains(s[i]));
        }
        assert(!front.contains(sep));
        lemma_split_without_separator(front, sep);
        assert(s.contains(s.last()));
        assert(front.push(s.last()) =~= s);
        assert(split(s, sep) =~= seq![s]);
    }
}

/// A separator followed by a separator-free tail adds that tail as one more piece.
pub proof fn lemma_split_append(a: Seq<char>, sep: char, b: Seq<char>)
    requires
        !b.contains(sep),
    ensures
        split(a + seq![sep] + b, sep) == split(a, sep).push(b),
    decreases b.len(),
{
    let whole = a + seq![sep] + b;
    if b.len() == 0 {
        assert(whole.drop_last() =~= a);
        assert(whole.last() == sep);
        assert(b =~= Seq::<char>::empty());
    } else {
        let front = b.drop_last();
        assert forall|i: int| 0 <= i < front.len() implies front[i] != sep by {
            assert(b[i] == front[i]);
            assert(b.contains(b[i]));
        }
        assert(!front.contains(sep));
        lemma_split_append(a, sep, front);
        assert(whole.drop_last() =~= a + seq![sep] + front);
        assert(whole.last() == b.last());
        assert(b.contains(b.last()));
        assert(front.push(b.last()) =~= b);
        let pieces = split(a, sep).push(front);
        assert(pieces.update(pieces.len() - 1, pieces.last().push(b.last())) =~= split(a, sep).push(
            b,
        ));
    }
}

/// Splits `s` on every occurrence of `sep`.
pub fn split_text(s: &str, sep: char) -> (pieces: Vec<String>)
    ensures
        texts(pieces@) == split(s@, sep),
{
    let n = s.unicode_len();
    let mut pieces: Vec<String> = Vec::new();
    let mut start: usize = 0;
    let mut i: usize = 0;
    proof {
        lemma_texts_empty();
        assert(s@.subrange(0, 0) =~= Seq::<char>::empty());
        assert(texts(pieces@).push(s@.subrange(0, 0)) =~= seq![Seq::<char>::empty()]);
    }
    while i < n
        invariant
            n == s@.len(),
            start <= i <= n,
            split(s@.subrange(0, i as int), sep) == texts(pieces@).push(
                s@.subrange(start as int, i as int),
            ),
        decreases n - i,
    {
        let c = s.get_char(i);
        proof {
            let next = s@.subrange(0, i + 1);
            assert(next.drop_last() =~= s@.subrange(0, i as int));
            assert(next.last() == c);
        }
        if c == sep {
            let piece = String::from_str(s.substring_char(start, i));
            proof {
                lemma_texts_push(pieces@, piece);
                assert(s@.subrange(i + 1, i + 1) =~= Seq::<char>::empty());
            }
            pieces.push(piece);
            start = i + 1;
        } else {
            proof {
                let open = texts(pieces@).push(s@.subrange(start as int, i as int));
                assert(s@.subrange(start as int, i as int).push(c) =~= s@.subrange(
                    start as int,
                    i + 1,
                ));
                assert(open.update(open.len() - 1, open.last().push(c)) =~= texts(pieces@).push(
                    s@.subrange(start as int, i + 1),
                ));
            }
        }
        i += 1;
    }
    let piece = String::from_str(s.substring_char(start, n));
    proof {
        lemma_texts_push(pieces@, piece);
        assert(s@.subrange(0, n as int) =~= s@);
    }
    pieces.push(piece);
    pieces
}

/// The character that writes the digit `d`.
pub open spec fn digit_char(d: int) -> char {
    if d == 0 {
        '0'
    } else if d == 1 {
        '1'
    } else if d == 2 {
        '2'
    } else if d == 3 {
        '3'
    } else if d == 4 {
        '4'
    } else if d == 5 {
        '5'
    } else if d == 6 {
        '6'
    } else if d == 7 {
        '7'
    } else if d == 8 {
        '8'
    } else {
        '9'
    }
}

/// True for the ten decimal digits.
pub open spec fn is_digit(c: char) -> bool {
    c == '0' || c == '1' || c == '2' || c == '3' || c == '4' || c == '5' || c == '6' || c == '7'
        || c == '8' || c == '9'
}

/// The value of a digit character; 0 for any other character.
pub open spec fn digit_value(c: char) -> nat {
    if c == '1' {
        1
    } else if c == '2' {
        2
    } else if c == '3' {
        3
    } else if c == '4' {
        4
    } else if c == '5' {
        5
    } else if c == '6' {
        6
    } else if c == '7' {
        7
    } else if c == '8' {
        8
    } else if c == '9' {
        9
    } else {
        0
    }
}

/// The shortest decimal numeral of `n`.
pub open spec fn decimal(n: nat) -> Seq<char>
    decreases n,
{
    if n < 10 {
        seq![digit_char(n as int)]
    } else {
        decimal(n / 10).push(digit_char((n % 10) as int))
    }
}

/// The decimal numeral of an integer, with a leading minus sign when negative.
pub open spec fn signed_decimal(i: int) -> Seq<char> {
    if i < 0 {
        seq!['-'] + decimal((-i) as nat)
    } else {
        decimal(i as nat)
    }
}

/// A non-empty run of decimal digits.
pub open spec fn is_number(s: Seq<char>) -> bool {
    s.len() > 0 && forall|i: int| 0 <= i < s.len() ==> is_digit(#[trigger] s[i])
}

/// The value of a run of digits read as a decimal numeral.
pub open spec fn decimal_value(s: Seq<char>) -> nat
    decreases s.len(),
{
    if s.len() == 0 {
        0
    } else {
        decimal_value(s.drop_last()) * 10 + digit_value(s.last())
    }
}

/// What a numeral stands for when it is read with an upper limit: its value
/// if it is a run of digits whose value does not exceed `max`.
pub open spec fn read_number(s: Seq<char>, max: nat) -> Option<nat> {
    if is_number(s) && decimal_value(s) <= max {
        Some(decimal_value(s))
    } else {
        None
    }
}

/// Reading a numeral written by `decimal` gives the number back.
pub proof fn lemma_decimal_round_trip(n: nat)
    ensures
        is_number(decimal(n)),
        decimal_value(decimal(n)) == n,
        !decimal(n).contains('\t'),
        !decimal(n).contains('\n'),
    decreases n,
{
    if n < 10 {
        let s = decimal(n);
        assert(s.drop_last() =~= Seq::<char>::empty());
        assert(decimal_value(s.drop_last()) == 0);
    } else {
        lemma_decimal_round_trip(n / 10);
        let front = decimal(n / 10);
        let s = decimal(n);
        assert(s.drop_last() =~= front);
        assert forall|i: int| 0 <= i < s.len() implies is_digit(#[trigger] s[i]) by {
            if i < front.len() {
                assert(s[i] == front[i]);
            }
        }
        assert forall|i: int| 0 <= i < s.len() implies s[i] != '\t' && s[i] != '\n' by {
            if i < front.len() {
                assert(s[i] == front[i]);
                assert(front.contains(front[i]));
            }
        }
    }
}

/// A longer run of digits is worth at least as much as any of its prefixes.
pub proof fn lemma_decimal_value_prefix(s: Seq<char>, k: int)
    requires
        0 <= k <= s.len(),
    ensures
        decimal_value(s.subrange(0, k)) <= decimal_value(s),
    decreases s.len() - k,
{
    if k == s.len() {
        assert(s.subrange(0, k) =~= s);
    } else {
        lemma_decimal_value_prefix(s, k + 1);
        let next = s.subrange(0, k + 1);
        assert(next.drop_last() =~= s.subrange(0, k));
        assert(decimal_value(next) == decimal_value(s.subrange(0, k)) * 10 + digit_value(
            next.last(),
        ));
    }
}

/// The one-character text of a digit.
pub fn digit_text(d: u64) -> (t: &'static str)
    requires
        d < 10,
    ensures
        t@ == seq![digit_char(d as int)],
{
    proof {
        reveal_strlit("0");
        reveal_strlit("1");
        reveal_strlit("2");
        reveal_strlit("3");
        reveal_strlit("4");
        reveal_strlit("5");
        reveal_strlit("6");
        reveal_strlit("7");
        reveal_strlit("8");
        reveal_strlit("9");
    }
    let t = if d == 0 {
        "0"
    } else if d == 1 {
        "1"
    } else if d == 2 {
        "2"
    } else if d == 3 {
        "3"
    } else if d == 4 {
        "4"
    } else if d == 5 {
        "5"
    } else if d == 6 {
        "6"
    } else if d == 7 {
        "7"
    } else if d == 8 {
        "8"
    } else {
        "9"
    };
    assert(t@ =~= seq![digit_char(d as int)]);
    t
}

/// Writes `n` in decimal.
pub fn format_unsigned(n: u64) -> (s: String)
    ensures
        s@ == decimal(n as nat),
    decreases n,
{
    if n < 10 {
        String::from_str(digit_text(n))
    } else {
        let mut s = format_unsigned(n / 10);
        s.append(digit_text(n % 10));
        assert(s@ =~= decimal(n as nat));
        s
    }
}

/// Writes `i` in decimal, with a minus sign when negative.
pub fn format_signed(i: i64) -> (s: String)
    ensures
        s@ == signed_decimal(i as int),
{
    if i >= 0 {
        format_unsigned(i as u64)
    } else {
        let magnitude: u64 = (-(i + 1)) as u64 + 1;
        let mut s = String::from_str("-");
        let digits = format_unsigned(magnitude);
        s.append(digits.as_str());
        proof {
            reveal_strlit("-");
            assert(s@ =~= signed_decimal(i as int));
        }
        s
    }
}

/// The value of a digit character, if it is one.
pub fn digit_of(c: char) -> (d: Option<u64>)
    ensures
        d is Some <==> is_digit(c),
        d matches Some(v) ==> v == digit_value(c) && v < 10,
{
    if c == '0' {
        Some(0)
    } else if c == '1' {
        Some(1)
    } else if c == '2' {
        Some(2)
    } else if c == '3' {
        Some(3)
    } else if c == '4' {
        Some(4)
    } else if c == '5' {
        Some(5)
    } else if c == '6' {
        Some(6)
    } else if c == '7' {
        Some(7)
    } else if c == '8' {
        Some(8)
    } else if c == '9' {
        Some(9)
    } else {
        None
    }
}

/// Reads a decimal numeral that must not exceed `max`.
pub fn parse_unsigned(s: &str, max: u32) -> (r: Option<u32>)
    ensures
        r is Some <==> read_number(s@, max as nat) is Some,
        r matches Some(v) ==> read_number(s@, max as nat) == Some(v as nat),
{
    let n = s.unicode_len();
    if n == 0 {
        return None;
    }
    let limit: u64 = max as u64;
    let mut value: u64 = 0;
    let mut i: usize = 0;
    assert(s@.subrange(0, 0) =~= Seq::<char>::empty());
    while i < n
        invariant
            n == s@.len(),
            0 <= i <= n,
            limit == max,
            value <= limit,
            value == decimal_value(s@.subrange(0, i as int)),
            forall|j: int| 0 <= j < i ==> is_digit(#[trigger] s@[j]),
        decreases n - i,
    {
        let c = s.get_char(i);
        proof {
            let next = s@.subrange(0, i + 1);
            assert(next.drop_last() =~= s@.subrange(0, i as int));
            assert(next.last() == c);
            lemma_decimal_value_prefix(s@, i + 1);
        }
        match digit_of(c) {
            None => {
                return None;
            },
            Some(d) => {
                let next_value: u64 = value * 10 + d;
                if next_value > limit {
                    return None;
                }
                value = next_value;
            },
        }
        i += 1;
    }
    assert(s@.subrange(0, n as int) =~= s@);
    Some(value as u32)
}

/// Adds a copy of `s` at the end of `v`.
pub fn push_text(v: &mut Vec<String>, s: &str)
    ensures
        texts(final(v)@) == texts(old(v)@).push(s@),
{
    let owned = String::from_str(s);
    proof {
        lemma_texts_push(v@, owned);
    }
    v.push(owned);
}

/// Adds copies of all of `more`, in order, at the end of `v`.
pub fn append_texts(v: &mut Vec<String>, more: &Vec<String>)
    ensures
        texts(final(v)@) == texts(old(v)@) + texts(more@),
{
    let mut i: usize = 0;
    assert(texts(v@) =~= texts(old(v)@) + texts(more@).subrange(0, 0));
    while i < more.len()
        invariant
            i <= more.len(),
            texts(v@) == texts(old(v)@) + texts(more@).subrange(0, i as int),
        decreases more.len() - i,
    {
        let ghost before = v@;
        push_text(v, more[i].as_str());
        assert(texts(v@) =~= texts(old(v)@) + texts(more@).subrange(0, i + 1));
        i += 1;
    }
    assert(texts(more@).subrange(0, more.len() as int) =~= texts(more@));
}

/// `s` with zeros put before it until it is at least `width` characters long.
pub open spec fn pad_left(s: Seq<char>, width: nat) -> Seq<char>
    decreases width - s.len(),
{
    if s.len() >= width {
        s
    } else {
        pad_left(seq!['0'] + s, width)
    }
}

/// The decimal numeral of `n` with leading zeros up to `width` digits.
pub open spec fn zero_padded(n: nat, width: nat) -> Seq<char> {
    pad_left(decimal(n), width)
}

/// A zero in front of a run of digits does not change its value.
pub proof fn lemma_leading_zero(s: Seq<char>)
    ensures
        decimal_value(seq!['0'] + s) == decimal_value(s),
    decreases s.len(),
{
    let z = seq!['0'] + s;
    if s.len() == 0 {
        assert(z.drop_last() =~= Seq::<char>::empty());
        assert(decimal_value(z.drop_last()) == 0);
    } else {
        lemma_leading_zero(s.drop_last());
        assert(z.drop_last() =~= seq!['0'] + s.drop_last());
        assert(z.last() == s.last());
    }
}

/// Padding keeps a numeral a numeral, and keeps its value.
pub proof fn lemma_pad_left_keeps_value(s: Seq<char>, width: nat)
    requires
        is_number(s),
    ensures
        is_number(pad_left(s, width)),
        decimal_value(pad_left(s, width)) == decimal_value(s),
    decreases width - s.len(),
{
    if s.len() < width {
        let z = seq!['0'] + s;
        lemma_leading_zero(s);
        assert forall|i: int| 0 <= i < z.len() implies is_digit(#[trigger] z[i]) by {
            if i > 0 {
                assert(z[i] == s[i - 1]);
            }
        }
        lemma_pad_left_keeps_value(z, width);
    }
}

/// Reading a zero-padded numeral gives the number back.
pub proof fn lemma_zero_padded_round_trip(n: nat, width: nat)
    ensures
        is_number(zero_padded(n, width)),
        decimal_value(zero_padded(n, width)) == n,
{
    lemma_decimal_round_trip(n);
    lemma_pad_left_keeps_value(decimal(n), width);
}

/// A numeral holds digits only.
pub proof fn lemma_number_excludes(s: Seq<char>, c: char)
    requires
        is_number(s),
        !is_digit(c),
    ensures
        !s.contains(c),
{
    assert forall|i: int| 0 <= i < s.len() implies s[i] != c by {
        assert(is_digit(s[i]));
    }
}

/// Writes `n` in decimal with leading zeros up to `width` digits.
pub fn format_padded(n: u64, width: usize) -> (s: String)
    ensures
        s@ == zero_padded(n as nat, width as nat),
{
    let mut s = format_unsigned(n);
    let mut len = s.as_str().unicode_len();
    while len < width
        invariant
            len == s@.len(),
            pad_left(s@, width as nat) == zero_padded(n as nat, width as nat),
        decreases width - len,
    {
        let mut longer = String::from_str("0");
        longer.append(s.as_str());
        proof {
            reveal_strlit("0");
            assert(longer@ =~= seq!['0'] + s@);
        }
        s = longer;
        len += 1;
    }
    s
}

/// What occurs in neither of two texts does not occur in the two put together.
pub proof fn lemma_concat_excludes(a: Seq<char>, b: Seq<char>, c: char)
    requires
        !a.contains(c),
        !b.contains(c),
    ensures
        !(a + b).contains(c),
{
    assert forall|i: int| 0 <= i < (a + b).len() implies (a + b)[i] != c by {
        if i < a.len() {
            assert(a.contains(a[i]));
        } else {
            assert(b.contains(b[i - a.len()]));
        }
    }
}

/// Two separator-free texts joined by the separator split into the two.
pub proof fn lemma_split_two(a: Seq<char>, b: Seq<char>, sep: char)
    requires
        !a.contains(sep),
        !b.contains(sep),
    ensures
        split(a + seq![sep] + b, sep) == seq![a, b],
{
    lemma_split_without_separator(a, sep);
    lemma_split_append(a, sep, b);
    assert(seq![a].push(b) =~= seq![a, b]);
}

/// Three separator-free texts joined by the separator split into the three.
pub proof fn lemma_split_three(a: Seq<char>, b: Seq<char>, c: Seq<char>, sep: char)
    requires
        !a.contains(sep),
        !b.contains(sep),
        !c.contains(sep),
    ensures
        split(a + seq![sep] + b + seq![sep] + c, sep) == seq![a, b, c],
{
    lemma_split_two(a, b, sep);
    lemma_split_append(a + seq![sep] + b, sep, c);
    assert(seq![a, b].push(c) =~= seq![a, b, c]);
}

/// A separator-free text put after another lengthens that one's last piece.
pub proof fn lemma_split_extend(a: Seq<char>, b: Seq<char>, sep: char)
    requires
        !b.contains(sep),
    ensures
        split(a, sep).len() >= 1,
        split(a + b, sep) == split(a, sep).update(
            split(a, sep).len() - 1,
            split(a, sep).last() + b,
        ),
    decreases b.len(),
{
    lemma_split_nonempty(a, sep);
    let pieces = split(a, sep);
    if b.len() == 0 {
        assert(a + b =~= a);
        assert(pieces.last() + b =~= pieces.last());
        assert(pieces.update(pieces.len() - 1, pieces.last()) =~= pieces);
    } else {
        let front = b.drop_last();
        assert forall|i: int| 0 <= i < front.len() implies front[i] != sep by {
            assert(b[i] == front[i]);
            assert(b.contains(b[i]));
        }
        assert(!front.contains(sep));
        lemma_split_extend(a, front, sep);
        assert((a + b).drop_last() =~= a + front);
        assert((a + b).last() == b.last());
        assert(b.contains(b.last()));
        assert((pieces.last() + front).push(b.last()) =~= pieces.last() + b);
        let before = pieces.update(pieces.len() - 1, pieces.last() + front);
        assert(before.update(before.len() - 1, before.last().push(b.last())) =~= pieces.update(
            pieces.len() - 1,
            pieces.last() + b,
        ));
    }
}

} // verus!
