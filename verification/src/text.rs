//! Numbers and bytes as text.

use vstd::prelude::*;

verus! {

/// The character of the decimal digit `d`.
pub open spec fn digit_char(d: nat) -> char {
    (48 + d) as char
}

/// `n` in decimal, without leading zeros.
pub open spec fn decimal(n: nat) -> Seq<char>
    decreases n,
{
    if n < 10 {
        seq![digit_char(n)]
    } else {
        decimal(n / 10).push(digit_char(n % 10))
    }
}

/// Whether `c` is a decimal digit.
pub open spec fn is_digit(c: char) -> bool {
    '0' <= c <= '9'
}

/// Whether `s` is one or more decimal digits.
pub open spec fn is_number(s: Seq<char>) -> bool {
    s.len() > 0 && forall|i: int| 0 <= i < s.len() ==> is_digit(#[trigger] s[i])
}

/// The number that the digits of `s` stand for.
pub open spec fn number_value(s: Seq<char>) -> nat
    decreases s.len(),
{
    if s.len() == 0 {
        0
    } else {
        number_value(s.drop_last()) * 10 + (s.last() as u32 - 48) as nat
    }
}

/// `s` without a leading plus sign.
pub open spec fn unsigned_part(s: Seq<char>) -> Seq<char> {
    if s.len() > 0 && s[0] == '+' {
        s.drop_first()
    } else {
        s
    }
}

/// The number that `s` reads as: digits, after a plus sign if there is one, for a number that is
/// not above `max`; `None` for any other text.
pub open spec fn parsed(s: Seq<char>, max: nat) -> Option<nat> {
    let digits = unsigned_part(s);
    if is_number(digits) && number_value(digits) <= max {
        Some(number_value(digits))
    } else {
        None
    }
}

/// The lower-case hexadecimal digit `d`.
pub open spec fn hex_char(d: nat) -> char {
    if d < 10 {
        (48 + d) as char
    } else {
        (87 + d) as char
    }
}

/// Two lower-case hexadecimal digits for each byte, the upper half first.
pub open spec fn hex_lower(b: Seq<u8>) -> Seq<char> {
    Seq::new(
        2 * b.len(),
        |i: int|
            if i % 2 == 0 {
                hex_char((b[i / 2] / 16) as nat)
            } else {
                hex_char((b[i / 2] % 16) as nat)
            },
    )
}

/// Calls `hex::encode`: the bytes in hexadecimal, two lower-case digits for each byte, the upper
/// half of the byte first.
#[verifier::external_body]
pub(crate) fn hex_encode(data: &[u8]) -> (r: String)
    ensures
        r@ == hex_lower(data@),
{
    hex::encode(data)
}

/// Whether two strings hold the same characters.
pub(crate) fn same_text(a: &str, b: &str) -> (r: bool)
    ensures
        r == (a@ == b@),
{
    a.to_owned() == b.to_owned()
}

fn digit_text(d: u64) -> (r: &'static str)
    requires
        d < 10,
    ensures
        r@ == seq![digit_char(d as nat)],
{
    proof {
        reveal_strlit("0");
        reveal_strlit("1");
        reveal_strlit("2");
        reveal_strlit("3");
        reveal_strlit("4");
        reveal_strlit("5");
        reveal_strlit("6");
        reveal_strlit("7");
        reveal_strlit("8");
        reveal_strlit("9");
    }
    let r = match d {
        0 => "0",
        1 => "1",
        2 => "2",
        3 => "3",
        4 => "4",
        5 => "5",
        6 => "6",
        7 => "7",
        8 => "8",
        _ => "9",
    };
    assert(r@ =~= seq![digit_char(d as nat)]);
    r
}

/// `n` in decimal.
pub fn decimal_text(n: u64) -> (r: String)
    ensures
        r@ == decimal(n as nat),
    decreases n,
{
    if n < 10 {
        digit_text(n).to_owned()
    } else {
        let mut r = decimal_text(n / 10);
        r.append(digit_text(n % 10));
        assert(r@ =~= decimal(n as nat));
        r
    }
}

proof fn number_value_grows(s: Seq<char>, n: int)
    requires
        0 <= n <= s.len(),
    ensures
        number_value(s.take(n)) <= number_value(s),
    decreases s.len(),
{
    if n == s.len() {
        assert(s.take(n) =~= s);
    } else {
        number_value_grows(s.drop_last(), n);
        assert(s.drop_last().take(n) =~= s.take(n));
        assert(number_value(s) >= number_value(s.drop_last())) by (nonlinear_arith)
            requires
                number_value(s) == number_value(s.drop_last()) * 10 + (s.last() as u32 - 48) as nat,
        ;
    }
}

/// The characters of `s`.
pub(crate) fn chars_of(s: &str) -> (r: Vec<char>)
    ensures
        r@ == s@,
{
    let mut r: Vec<char> = Vec::new();
    let ghost text = s@;
    for c in it: s.chars()
        invariant
            it.seq() == text,
            r@ =~= text.take(it.index() as int),
    {
        r.push(c);
    }
    assert(text.take(text.len() as int) =~= text);
    r
}

/// Reads a number that fits 64 bits.
pub fn parse_u64(s: &str) -> (r: Option<u64>)
    ensures
        match r {
            Some(v) => parsed(s@, u64::MAX as nat) == Some(v as nat),
            None => parsed(s@, u64::MAX as nat) is None,
        },
{
    let text = chars_of(s);
    let start: usize = if text.len() > 0 && text[0] == '+' {
        1
    } else {
        0
    };
    let ghost body = unsigned_part(s@);
    assert(body =~= text@.skip(start as int));
    if start == text.len() {
        return None;
    }
    let mut value: u64 = 0;
    let mut i: usize = start;
    while i < text.len()
        invariant
            start <= i <= text@.len(),
            body == text@.skip(start as int),
            body == unsigned_part(s@),
            forall|j: int| 0 <= j < i - start ==> is_digit(#[trigger] body[j]),
            value == number_value(body.take(i - start)),
        decreases text@.len() - i,
    {
        let c = text[i];
        assert(c == body[i - start]);
        if c < '0' || c > '9' {
            return None;
        }
        let d: u64 = (c as u32 - 48) as u64;
        proof {
            let next = body.take(i - start + 1);
            assert(next.drop_last() =~= body.take(i - start));
            assert(next.last() == c);
            number_value_grows(body, i - start + 1);
        }
        if value > (u64::MAX - d) / 10 {
            return None;
        }
        value = value * 10 + d;
        i = i + 1;
    }
    assert(body.take(body.len() as int) =~= body);
    Some(value)
}

/// Reads a number that fits 32 bits.
pub fn parse_u32(s: &str) -> (r: Option<u32>)
    ensures
        match r {
            Some(v) => parsed(s@, u32::MAX as nat) == Some(v as nat),
            None => parsed(s@, u32::MAX as nat) is None,
        },
{
    match parse_u64(s) {
        Some(v) => if v <= u32::MAX as u64 {
            Some(v as u32)
        } else {
            None
        },
        None => None,
    }
}

/// Reading a number's decimal text gives the number back.
pub proof fn decimal_reads_back(n: nat, max: nat)
    requires
        n <= max,
    ensures
        parsed(decimal(n), max) == Some(n),
{
    decimal_is_a_number(n);
    assert(decimal(n)[0] != '+') by {
        assert(is_digit(decimal(n)[0]));
    }
}

/// The decimal text of a number is digits, and its value is the number.
pub proof fn decimal_is_a_number(n: nat)
    ensures
        is_number(decimal(n)),
        number_value(decimal(n)) == n,
    decreases n,
{
    if n >= 10 {
        decimal_is_a_number(n / 10);
        let s = decimal(n);
        assert(s.drop_last() =~= decimal(n / 10));
        assert(s.last() == digit_char(n % 10));
        assert forall|i: int| 0 <= i < s.len() implies is_digit(#[trigger] s[i]) by {
            if i < s.len() - 1 {
                assert(s[i] == decimal(n / 10)[i]);
            }
        }
    } else {
        let s = decimal(n);
        assert(s.drop_last() =~= Seq::<char>::empty());
        assert(s.last() == digit_char(n));
        reveal_with_fuel(number_value, 2);
    }
}

/// A text is split in only one way at the last place where a character stands.
pub(crate) proof fn last_mark_splits(a1: Seq<char>, b1: Seq<char>, a2: Seq<char>, b2: Seq<char>, mark: char)
    requires
        a1.push(mark) + b1 == a2.push(mark) + b2,
        !b1.contains(mark),
        !b2.contains(mark),
    ensures
        a1 == a2,
        b1 == b2,
{
    let t1 = a1.push(mark) + b1;
    let t2 = a2.push(mark) + b2;
    assert(t1.len() == a1.len() + 1 + b1.len() && t2.len() == a2.len() + 1 + b2.len());
    assert(t1[a1.len() as int] == mark);
    assert(t2[a2.len() as int] == mark);
    if a1.len() < a2.len() {
        assert(t1[a2.len() as int] == b1[a2.len() - a1.len() - 1]);
        assert(b1.contains(mark));
    }
    if a2.len() < a1.len() {
        assert(t2[a1.len() as int] == b2[a1.len() - a2.len() - 1]);
        assert(b2.contains(mark));
    }
    assert(a1 =~= a2) by {
        assert forall|i: int| 0 <= i < a1.len() implies a1[i] == a2[i] by {
            assert(t1[i] == a1[i] && t2[i] == a2[i]);
        }
    }
    assert(b1 =~= b2) by {
        assert forall|i: int| 0 <= i < b1.len() implies b1[i] == b2[i] by {
            assert(t1[a1.len() + 1 + i] == b1[i] && t2[a2.len() + 1 + i] == b2[i]);
        }
    }
}

/// Bytes are known by their hexadecimal digits.
pub proof fn hex_is_injective(a: Seq<u8>, b: Seq<u8>)
    requires
        hex_lower(a) == hex_lower(b),
    ensures
        a == b,
{
    let ta = hex_lower(a);
    let tb = hex_lower(b);
    assert(ta.len() == 2 * a.len() && tb.len() == 2 * b.len());
    assert forall|i: int| 0 <= i < a.len() implies a[i] == b[i] by {
        assert(ta[2 * i] == tb[2 * i]);
        assert(ta[2 * i + 1] == tb[2 * i + 1]);
        assert(ta[2 * i] == hex_char((a[i] / 16) as nat));
        assert(tb[2 * i] == hex_char((b[i] / 16) as nat));
        assert(ta[2 * i + 1] == hex_char((a[i] % 16) as nat));
        assert(tb[2 * i + 1] == hex_char((b[i] % 16) as nat));
    }
    assert(a =~= b);
}

/// `a` followed by `b`.
pub(crate) fn joined(a: &str, b: &String) -> (r: String)
    ensures
        r@ == a@ + b@,
{
    let mut r = a.to_owned();
    r.append(b.as_str());
    r
}

/// Whether a string holds no characters.
pub(crate) fn is_blank(s: &str) -> (r: bool)
    ensures
        r == (s@.len() == 0),
{
    proof {
        reveal_strlit("");
        if s@.len() == 0 {
            assert(s@ =~= ""@);
        }
    }
    same_text(s, "")
}

/// Whether the text `a` stands before `b` in the order of their characters.
pub open spec fn text_less(a: Seq<char>, b: Seq<char>) -> bool
    decreases a.len(),
{
    if b.len() == 0 {
        false
    } else if a.len() == 0 {
        true
    } else if a[0] != b[0] {
        a[0] < b[0]
    } else {
        text_less(a.skip(1), b.skip(1))
    }
}

/// Of two texts that differ one stands before the other, and not the other way round.
pub proof fn texts_are_ordered(a: Seq<char>, b: Seq<char>)
    ensures
        !text_less(a, a),
        text_less(a, b) ==> !text_less(b, a) && a != b,
        a != b ==> text_less(a, b) || text_less(b, a),
    decreases a.len(),
{
    if a.len() > 0 {
        texts_are_ordered(a.skip(1), a.skip(1));
    }
    if a.len() > 0 && b.len() > 0 {
        if a[0] == b[0] {
            texts_are_ordered(a.skip(1), b.skip(1));
            if a.skip(1) == b.skip(1) {
                assert(a =~= seq![a[0]] + a.skip(1));
                assert(b =~= seq![b[0]] + b.skip(1));
            }
        }
    } else if a.len() == 0 && b.len() == 0 {
        assert(a =~= b);
    }
}

/// The order of texts is transitive.
pub proof fn text_order_is_transitive(a: Seq<char>, b: Seq<char>, c: Seq<char>)
    requires
        text_less(a, b),
        text_less(b, c),
    ensures
        text_less(a, c),
    decreases a.len(),
{
    if a.len() > 0 && a[0] == b[0] && b[0] == c[0] {
        text_order_is_transitive(a.skip(1), b.skip(1), c.skip(1));
    }
}

/// Whether `a` stands before `b`.
pub(crate) fn stands_before(a: &str, b: &str) -> (r: bool)
    ensures
        r == text_less(a@, b@),
{
    let left = chars_of(a);
    let right = chars_of(b);
    let mut i: usize = 0;
    assert(left@.skip(0) =~= left@);
    assert(right@.skip(0) =~= right@);
    while i < left.len() && i < right.len() && left[i] == right[i]
        invariant
            i <= left@.len(),
            i <= right@.len(),
            text_less(left@, right@) == text_less(left@.skip(i as int), right@.skip(i as int)),
        decreases left@.len() - i,
    {
        assert(left@.skip(i as int).skip(1) =~= left@.skip(i + 1));
        assert(right@.skip(i as int).skip(1) =~= right@.skip(i + 1));
        i = i + 1;
    }
    if i >= right.len() {
        false
    } else if i >= left.len() {
        true
    } else {
        left[i] < right[i]
    }
}

/// Whether a list of texts is in order, without repetition.
pub open spec fn in_order(texts: Seq<Seq<char>>) -> bool {
    forall|i: int, j: int|
        0 <= i < j < texts.len() ==> text_less(#[trigger] texts[i], #[trigger] texts[j])
}

/// The characters of the strings in a list.
pub open spec fn texts_of(list: Seq<String>) -> Seq<Seq<char>> {
    list.map_values(|s: String| s@)
}

/// Puts `text` into an ordered list at its place, unless it is there already.
pub(crate) fn insert_in_order(list: &mut Vec<String>, text: &str)
    requires
        in_order(texts_of(old(list)@)),
    ensures
        in_order(texts_of(final(list)@)),
        texts_of(final(list)@).to_set() == texts_of(old(list)@).to_set().insert(text@),
{
    let ghost before = texts_of(list@);
    let mut i: usize = 0;
    while i < list.len() && stands_before(list[i].as_str(), text)
        invariant
            i <= list@.len(),
            before == texts_of(list@),
            forall|j: int| 0 <= j < i ==> text_less(#[trigger] before[j], text@),
        decreases list@.len() - i,
    {
        i = i + 1;
    }
    if i < list.len() && same_text(list[i].as_str(), text) {
        assert(before.contains(before[i as int]));
        assert(before.to_set() =~= before.to_set().insert(text@));
        return;
    }
    proof {
        assert forall|j: int| i <= j < before.len() implies text_less(text@, #[trigger] before[j]) by {
            texts_are_ordered(before[i as int], text@);
            if j > i {
                text_order_is_transitive(text@, before[i as int], before[j]);
            }
        }
    }
    list.insert(i, text.to_owned());
    proof {
        let after = texts_of(list@);
        assert(after =~= before.insert(i as int, text@));
        assert forall|a: int, b: int| 0 <= a < b < after.len() implies text_less(
            #[trigger] after[a],
            #[trigger] after[b],
        ) by {
            let a0 = if a < i {
                a
            } else {
                a - 1
            };
            let b0 = if b < i {
                b
            } else {
                b - 1
            };
            if a != i && b != i {
                assert(after[a] == before[a0] && after[b] == before[b0]);
            } else if a == i {
                assert(after[b] == before[b0]);
            } else {
                assert(after[a] == before[a0]);
            }
        }
        assert forall|x: Seq<char>| #[trigger] after.to_set().contains(x)
            == before.to_set().insert(text@).contains(x) by {
            if before.contains(x) {
                let k = choose|k: int| 0 <= k < before.len() && before[k] == x;
                let k1 = if k < i {
                    k
                } else {
                    k + 1
                };
                assert(after[k1] == x);
            }
            if after.contains(x) {
                let k = choose|k: int| 0 <= k < after.len() && after[k] == x;
                if k < i {
                    assert(before[k] == x);
                } else if k > i {
                    assert(before[k - 1] == x);
                }
            }
            assert(after[i as int] == text@);
        }
        assert(after.to_set() =~= before.to_set().insert(text@));
    }
}

} // verus!
