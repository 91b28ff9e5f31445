//! Numbers and tables as text.

use vstd::prelude::*;

verus! {

/// `String::push`: appends the character.
pub assume_specification[ String::push ](s: &mut String, c: char)
    ensures
        final(s)@ == old(s)@.push(c),
;

/// The decimal digit of a number below ten.
pub open spec fn digit(d: nat) -> char {
    (48 + d) as char
}

/// A number in decimal, without leading zeros.
pub open spec fn dec(n: nat) -> Seq<char>
    decreases n,
{
    if n < 10 {
        seq![digit(n)]
    } else {
        dec(n / 10).push(digit(n % 10))
    }
}

/// A number in decimal, with a sign in front if it is negative.
pub open spec fn dec_signed(n: int) -> Seq<char> {
    if n < 0 {
        seq!['-'] + dec((-n) as nat)
    } else {
        dec(n as nat)
    }
}

/// The upper-case hexadecimal digit of a number below sixteen.
pub open spec fn hex_digit(d: nat) -> char {
    if d < 10 {
        (48 + d) as char
    } else {
        (55 + d) as char
    }
}

/// The `width` lowest hexadecimal digits of a number, in upper case.
pub open spec fn hex(n: nat, width: nat) -> Seq<char>
    decreases width,
{
    if width == 0 {
        Seq::empty()
    } else {
        hex(n / 16, (width - 1) as nat).push(hex_digit(n % 16))
    }
}

/// `count` blanks.
pub open spec fn blanks(count: nat) -> Seq<char> {
    Seq::new(count, |i: int| ' ')
}

/// `text` in the middle of `width` blanks, of which an odd one stands behind it. A text
/// that is too wide stays as it is.
pub open spec fn centered(text: Seq<char>, width: nat) -> Seq<char> {
    if text.len() >= width {
        text
    } else {
        let free = (width - text.len()) as nat;
        blanks(free / 2) + text + blanks((free - free / 2) as nat)
    }
}

/// The bytes in upper-case hexadecimal, two digits each.
pub open spec fn hex_bytes(bytes: Seq<u8>) -> Seq<char>
    decreases bytes.len(),
{
    if bytes.len() == 0 {
        Seq::empty()
    } else {
        hex_bytes(bytes.drop_last()) + hex(bytes.last() as nat, 2)
    }
}

/// The texts in a row, with a comma and a blank between neighbours.
pub open spec fn comma_separated(items: Seq<Seq<char>>) -> Seq<char>
    decreases items.len(),
{
    if items.len() == 0 {
        Seq::empty()
    } else if items.len() == 1 {
        items[0]
    } else {
        comma_separated(items.drop_last()) + ", "@ + items.last()
    }
}

/// The texts as a list in square brackets.
pub open spec fn bracketed(items: Seq<Seq<char>>) -> Seq<char> {
    "["@ + comma_separated(items) + "]"@
}

/// The character is a decimal digit.
pub open spec fn is_digit(c: char) -> bool {
    '0' <= c <= '9'
}

/// A number in decimal consists of digits, of at least one.
pub proof fn lemma_dec_is_digits(n: nat)
    ensures
        dec(n).len() > 0,
        forall|i: int| 0 <= i < dec(n).len() ==> is_digit(#[trigger] dec(n)[i]),
    decreases n,
{
    if n >= 10 {
        lemma_dec_is_digits(n / 10);
    }
}

proof fn lemma_dec_tells_numbers_apart(a: nat, b: nat)
    requires
        dec(a) == dec(b),
    ensures
        a == b,
    decreases a,
{
    lemma_dec_is_digits(a / 10);
    lemma_dec_is_digits(b / 10);
    let (x, y) = (dec(a), dec(b));
    assert(x.last() == digit(a % 10) && y.last() == digit(b % 10));
    assert(a % 10 == b % 10);
    if a >= 10 && b >= 10 {
        assert(x.drop_last() =~= dec(a / 10));
        assert(y.drop_last() =~= dec(b / 10));
        lemma_dec_tells_numbers_apart(a / 10, b / 10);
    }
}

/// A number in decimal can be told from what follows it, as long as that is no digit: the number
/// and what follows can be read from the text in one way only.
pub proof fn law_decimal_is_unambiguous(a: nat, after_a: Seq<char>, b: nat, after_b: Seq<char>)
    requires
        dec(a) + after_a == dec(b) + after_b,
        after_a.len() == 0 || !is_digit(after_a[0]),
        after_b.len() == 0 || !is_digit(after_b[0]),
    ensures
        a == b,
        after_a == after_b,
{
    lemma_dec_is_digits(a);
    lemma_dec_is_digits(b);
    let whole = dec(a) + after_a;
    let (m, n) = (dec(a).len() as int, dec(b).len() as int);
    if m < n {
        assert(is_digit(dec(b)[m]));
        assert(whole[m] == dec(b)[m]);
        assert(whole[m] == after_a[0]);
    }
    if n < m {
        assert(is_digit(dec(a)[n]));
        assert(whole[n] == dec(a)[n]);
        assert(whole[n] == after_b[0]);
    }
    assert(dec(a) =~= whole.subrange(0, m));
    assert(dec(b) =~= whole.subrange(0, m));
    assert(after_a =~= whole.subrange(m, whole.len() as int));
    assert(after_b =~= whole.subrange(m, whole.len() as int));
    lemma_dec_tells_numbers_apart(a, b);
}

/// The number that hexadecimal digits spell.
pub open spec fn hex_value(text: Seq<char>) -> nat
    decreases text.len(),
{
    if text.len() == 0 {
        0
    } else {
        let c = text.last();
        hex_value(text.drop_last()) * 16 + if is_digit(c) {
            (c as int - '0' as int) as nat
        } else {
            (c as int - 'A' as int + 10) as nat
        }
    }
}

/// The count of numbers that `width` hexadecimal digits can spell.
pub open spec fn hex_range(width: nat) -> nat
    decreases width,
{
    if width == 0 {
        1
    } else {
        16 * hex_range((width - 1) as nat)
    }
}

/// Hexadecimal digits spell the number that they were made of, and there are as many as were
/// asked for.
pub proof fn law_hexadecimal_is_read_back(n: nat, width: nat)
    requires
        n < hex_range(width),
    ensures
        hex(n, width).len() == width,
        hex_value(hex(n, width)) == n,
    decreases width,
{
    if width > 0 {
        law_hexadecimal_is_read_back(n / 16, (width - 1) as nat);
        assert(hex(n, width).drop_last() =~= hex(n / 16, (width - 1) as nat));
        let d = n % 16;
        assert(hex(n, width).last() == hex_digit(d));
    }
}

/// A number in hexadecimal consists of digits and the letters from A to F.
pub proof fn lemma_hex_is_digits(n: nat, width: nat)
    ensures
        hex(n, width).len() == width,
        forall|i: int|
            0 <= i < width ==> is_digit(#[trigger] hex(n, width)[i]) || 'A' <= hex(n, width)[i]
                <= 'F',
    decreases width,
{
    if width > 0 {
        lemma_hex_is_digits(n / 16, (width - 1) as nat);
        assert(n % 16 < 16);
    }
}

/// Eight hexadecimal digits suffice for every number of 32 bits, two for every byte.
pub proof fn lemma_hex_ranges()
    ensures
        hex_range(2) == 0x100,
        hex_range(8) == 0x1_0000_0000,
{
    reveal_with_fuel(hex_range, 9);
}

/// Bytes in hexadecimal: two digits for each byte, in order, which spell the byte.
pub proof fn law_hex_bytes_are_read_back(bytes: Seq<u8>)
    ensures
        hex_bytes(bytes).len() == 2 * bytes.len(),
        forall|i: int|
            0 <= i < bytes.len() ==> hex_value(hex_bytes(bytes).subrange(2 * i, 2 * i + 2))
                == #[trigger] bytes[i],
    decreases bytes.len(),
{
    if bytes.len() > 0 {
        let front = bytes.drop_last();
        law_hex_bytes_are_read_back(front);
        lemma_hex_ranges();
        law_hexadecimal_is_read_back(bytes.last() as nat, 2);
        assert forall|i: int| 0 <= i < bytes.len() implies hex_value(
            hex_bytes(bytes).subrange(2 * i, 2 * i + 2),
        ) == #[trigger] bytes[i] by {
            if i < front.len() {
                assert(hex_bytes(bytes).subrange(2 * i, 2 * i + 2) =~= hex_bytes(front).subrange(
                    2 * i,
                    2 * i + 2,
                ));
                assert(front[i] == bytes[i]);
            } else {
                assert(hex_bytes(bytes).subrange(2 * i, 2 * i + 2) =~= hex(
                    bytes.last() as nat,
                    2,
                ));
            }
        }
    }
}

/// The text without its blanks.
pub open spec fn without_blanks(text: Seq<char>) -> Seq<char> {
    text.filter(|c: char| c != ' ')
}

proof fn lemma_only_blanks(text: Seq<char>)
    requires
        forall|i: int| 0 <= i < text.len() ==> #[trigger] text[i] == ' ',
    ensures
        without_blanks(text) == Seq::<char>::empty(),
    decreases text.len(),
{
    reveal(Seq::filter);
    if text.len() > 0 {
        assert forall|i: int| 0 <= i < text.drop_last().len() implies #[trigger] text.drop_last()[i]
            == ' ' by {
            assert(text[i] == ' ');
        }
        lemma_only_blanks(text.drop_last());
        assert(text[text.len() - 1] == ' ');
    }
    assert(without_blanks(text) =~= Seq::<char>::empty());
}

proof fn lemma_no_blanks(text: Seq<char>)
    requires
        forall|i: int| 0 <= i < text.len() ==> #[trigger] text[i] != ' ',
    ensures
        without_blanks(text) == text,
    decreases text.len(),
{
    reveal(Seq::filter);
    if text.len() > 0 {
        assert forall|i: int| 0 <= i < text.drop_last().len() implies #[trigger] text.drop_last()[i]
            != ' ' by {
            assert(text[i] != ' ');
        }
        lemma_no_blanks(text.drop_last());
        assert(text[text.len() - 1] != ' ');
        assert(text.drop_last().push(text.last()) =~= text);
    }
    assert(without_blanks(text) =~= text);
}

/// A text that is centered is still there, with blanks around it, as many in front as behind or
/// one fewer, so that the width is reached.
pub proof fn law_centered_text_is_kept(text: Seq<char>, width: nat)
    requires
        forall|i: int| 0 <= i < text.len() ==> #[trigger] text[i] != ' ',
    ensures
        without_blanks(centered(text, width)) == text,
        centered(text, width).len() == if text.len() < width {
            width
        } else {
            text.len()
        },
        forall|i: int|
            0 <= i < centered(text, width).len() ==> #[trigger] centered(text, width)[i] == ' '
                || text.contains(centered(text, width)[i]),
        text.len() < width ==> {
            let front = (width - text.len()) / 2;
            centered(text, width).subrange(front, front + text.len()) == text
        },
{
    let line = centered(text, width);
    lemma_no_blanks(text);
    if text.len() < width {
        let free = (width - text.len()) as nat;
        let (l, r) = (blanks(free / 2), blanks((free - free / 2) as nat));
        let keep = |c: char| c != ' ';
        Seq::filter_distributes_over_add(l + text, r, keep);
        Seq::filter_distributes_over_add(l, text, keep);
        lemma_only_blanks(l);
        lemma_only_blanks(r);
        assert(without_blanks(line) =~= text);
        let front = (width - text.len()) / 2;
        assert(line.subrange(front, front + text.len()) =~= text);
        assert forall|i: int| 0 <= i < line.len() implies #[trigger] line[i] == ' '
            || text.contains(line[i]) by {
            if l.len() <= i < l.len() + text.len() {
                assert(text[i - l.len()] == line[i]);
            }
        }
    } else {
        assert forall|i: int| 0 <= i < line.len() implies #[trigger] line[i] == ' '
            || text.contains(line[i]) by {
            assert(text[i] == line[i]);
        }
    }
}

/// The part occurs in the text.
pub open spec fn shows(text: Seq<char>, part: Seq<char>) -> bool {
    exists|before: Seq<char>, after: Seq<char>| text == #[trigger] (before + part + after)
}

/// A part of a text is a part of what the text is the front of.
pub proof fn lemma_shows_more(text: Seq<char>, part: Seq<char>, more: Seq<char>)
    requires
        shows(text, part),
    ensures
        shows(text + more, part),
{
    let (before, after) = choose|before: Seq<char>, after: Seq<char>|
        text == #[trigger] (before + part + after);
    assert(text + more =~= before + part + (after + more));
}

/// A part of a text is a part of what the text is the end of.
pub proof fn lemma_shows_behind(front: Seq<char>, text: Seq<char>, part: Seq<char>)
    requires
        shows(text, part),
    ensures
        shows(front + text, part),
{
    let (before, after) = choose|before: Seq<char>, after: Seq<char>|
        text == #[trigger] (before + part + after);
    assert(front + text =~= (front + before) + part + after);
}

/// Two texts of the same length, each followed by another one: if the whole is the same, the parts
/// are.
pub proof fn lemma_same_parts(a: Seq<char>, after_a: Seq<char>, b: Seq<char>, after_b: Seq<char>)
    requires
        a + after_a == b + after_b,
        a.len() == b.len(),
    ensures
        a == b,
        after_a == after_b,
{
    let whole = a + after_a;
    let n = a.len() as int;
    assert(a =~= whole.subrange(0, n));
    assert(b =~= whole.subrange(0, n));
    assert(after_a =~= whole.subrange(n, whole.len() as int));
    assert(after_b =~= whole.subrange(n, whole.len() as int));
}

/// A value between two texts stands between the end of the first and the start of the second.
pub proof fn lemma_shows_between(
    front: Seq<char>,
    key: Seq<char>,
    value: Seq<char>,
    end: Seq<char>,
    back: Seq<char>,
)
    ensures
        shows((front + key) + value + (end + back), key + value + end),
{
    assert((front + key) + value + (end + back) =~= front + (key + value + end) + back);
}

/// `n` in decimal.
pub fn decimal(n: u64) -> (text: String)
    ensures
        text@ == dec(n as nat),
    decreases n,
{
    let mut text = if n < 10 {
        String::new()
    } else {
        decimal(n / 10)
    };
    text.push((48u8 + (n % 10) as u8) as char);
    proof {
        assert(text@ =~= dec(n as nat));
    }
    text
}

/// `n` in decimal, with its sign.
pub fn decimal_signed(n: i32) -> (text: String)
    ensures
        text@ == dec_signed(n as int),
{
    if n < 0 {
        let mut text = String::new();
        text.push('-');
        let magnitude = decimal((-(n as i64)) as u64);
        text.append(magnitude.as_str());
        proof {
            assert(text@ =~= dec_signed(n as int));
        }
        text
    } else {
        decimal(n as u64)
    }
}

/// The `width` lowest hexadecimal digits of `n`.
pub fn hexadecimal(n: u32, width: u8) -> (text: String)
    ensures
        text@ == hex(n as nat, width as nat),
    decreases width,
{
    if width == 0 {
        String::new()
    } else {
        let mut text = hexadecimal(n / 16, width - 1);
        let d = (n % 16) as u8;
        let c = if d < 10 {
            (48u8 + d) as char
        } else {
            (55u8 + d) as char
        };
        text.push(c);
        text
    }
}

/// Appends `count` blanks.
fn push_blanks(text: &mut String, count: usize)
    ensures
        final(text)@ == old(text)@ + blanks(count as nat),
{
    let mut i: usize = 0;
    while i < count
        invariant
            i <= count,
            text@ =~= old(text)@ + blanks(i as nat),
        decreases count - i,
    {
        text.push(' ');
        i += 1;
    }
}

/// `text` centred in `width` blanks.
pub fn center(text: &str, width: usize) -> (line: String)
    ensures
        line@ == centered(text@, width as nat),
{
    let len = text.unicode_len();
    if len >= width {
        text.to_owned()
    } else {
        let free = width - len;
        let mut line = String::new();
        push_blanks(&mut line, free / 2);
        line.append(text);
        push_blanks(&mut line, free - free / 2);
        proof {
            assert(line@ =~= centered(text@, width as nat));
        }
        line
    }
}

/// `bytes` in hexadecimal.
pub fn hex_of_bytes(bytes: &[u8]) -> (text: String)
    ensures
        text@ == hex_bytes(bytes@),
{
    let mut text = String::new();
    let mut i: usize = 0;
    while i < bytes.len()
        invariant
            i <= bytes@.len(),
            text@ == hex_bytes(bytes@.subrange(0, i as int)),
        decreases bytes@.len() - i,
    {
        let two = hexadecimal(bytes[i] as u32, 2);
        text.append(two.as_str());
        proof {
            let upto = bytes@.subrange(0, i + 1);
            assert(upto.drop_last() =~= bytes@.subrange(0, i as int));
            assert(upto.last() == bytes@[i as int]);
        }
        i += 1;
    }
    proof {
        assert(bytes@.subrange(0, i as int) =~= bytes@);
    }
    text
}

/// The views of the strings in a list.
pub open spec fn texts(items: Seq<String>) -> Seq<Seq<char>> {
    items.map_values(|s: String| s@)
}

/// The views of the strings in a list are those of each string, in order.
pub proof fn law_texts_are_those_of_each(items: Seq<String>)
    ensures
        texts(items).len() == items.len(),
        forall|i: int| 0 <= i < items.len() ==> #[trigger] texts(items)[i] == items[i]@,
{
}

/// `items` as a list in square brackets.
pub fn bracketed_list(items: &Vec<String>) -> (text: String)
    ensures
        text@ == bracketed(texts(items@)),
{
    let mut inner = String::new();
    let mut i: usize = 0;
    while i < items.len()
        invariant
            i <= items@.len(),
            inner@ == comma_separated(texts(items@).subrange(0, i as int)),
        decreases items@.len() - i,
    {
        if i > 0 {
            inner.append(", ");
        }
        inner.append(items[i].as_str());
        proof {
            let upto = texts(items@).subrange(0, i + 1);
            assert(upto.drop_last() =~= texts(items@).subrange(0, i as int));
            assert(upto.last() == items@[i as int]@);
            if i == 0 {
                assert(inner@ =~= items@[0]@);
            }
        }
        i += 1;
    }
    let mut text = String::new();
    text.append("[");
    text.append(inner.as_str());
    text.append("]");
    proof {
        assert(texts(items@).subrange(0, i as int) =~= texts(items@));
        assert(text@ =~= bracketed(texts(items@)));
    }
    text
}

/// The `Debug` form of a text: in quotes, with escapes where they are needed.
pub uninterp spec fn str_debug(text: Seq<char>) -> Seq<char>;

/// `Debug` of `str`, through `format!`: the result is a function of the text, named
/// [`str_debug`].
#[verifier::external_body]
pub(crate) fn debug_of_str(text: &str) -> (r: String)
    ensures
        r@ == str_debug(text@),
{
    format!("{text:?}")
}

/// The decimal forms of the bytes.
pub open spec fn decimals(bytes: Seq<u8>) -> Seq<Seq<char>> {
    bytes.map_values(|b: u8| dec(b as nat))
}

proof fn lemma_list_from_the_front(bytes: Seq<u8>)
    requires
        bytes.len() > 1,
    ensures
        comma_separated(decimals(bytes)) == dec(bytes[0] as nat) + (", "@ + comma_separated(
            decimals(bytes.subrange(1, bytes.len() as int)),
        )),
    decreases bytes.len(),
{
    let items = decimals(bytes);
    let rest = bytes.subrange(1, bytes.len() as int);
    let front = bytes.drop_last();
    assert(items.drop_last() =~= decimals(front));
    if bytes.len() == 2 {
        assert(comma_separated(decimals(front)) == decimals(front)[0]);
        assert(decimals(front)[0] == dec(bytes[0] as nat));
        assert(comma_separated(decimals(rest)) == decimals(rest)[0]);
        assert(items.last() == decimals(rest)[0]);
        assert(comma_separated(items) =~= dec(bytes[0] as nat) + (", "@ + comma_separated(
            decimals(rest),
        )));
    } else {
        lemma_list_from_the_front(front);
        assert(front.subrange(1, front.len() as int) =~= rest.drop_last());
        assert(decimals(rest).drop_last() =~= decimals(rest.drop_last()));
        assert(decimals(rest).last() == items.last());
        assert(comma_separated(items) =~= dec(bytes[0] as nat) + (", "@ + comma_separated(
            decimals(rest),
        )));
    }
}

proof fn lemma_lists_tell_bytes_apart(a: Seq<u8>, b: Seq<u8>, end: Seq<char>)
    requires
        comma_separated(decimals(a)) + end == comma_separated(decimals(b)) + end,
        end.len() > 0,
        !is_digit(end[0]),
        end[0] != ',',
    ensures
        a == b,
    decreases a.len(),
{
    reveal_strlit(", ");
    let (x, y) = (comma_separated(decimals(a)) + end, comma_separated(decimals(b)) + end);
    if a.len() > 0 {
        lemma_dec_is_digits(a[0] as nat);
    }
    if b.len() > 0 {
        lemma_dec_is_digits(b[0] as nat);
    }
    if a.len() == 0 || b.len() == 0 {
        if a.len() > 0 {
            lemma_starts_with_digit(a);
            assert(x[0] == comma_separated(decimals(a))[0]);
            assert(y[0] == end[0]);
        }
        if b.len() > 0 {
            lemma_starts_with_digit(b);
            assert(y[0] == comma_separated(decimals(b))[0]);
            assert(x[0] == end[0]);
        }
        assert(a =~= b);
    } else {
        let (ra, rb) = (a.subrange(1, a.len() as int), b.subrange(1, b.len() as int));
        let ta = if a.len() == 1 {
            end
        } else {
            ", "@ + (comma_separated(decimals(ra)) + end)
        };
        let tb = if b.len() == 1 {
            end
        } else {
            ", "@ + (comma_separated(decimals(rb)) + end)
        };
        if a.len() > 1 {
            lemma_list_from_the_front(a);
        }
        if b.len() > 1 {
            lemma_list_from_the_front(b);
        }
        assert(x =~= dec(a[0] as nat) + ta);
        assert(y =~= dec(b[0] as nat) + tb);
        law_decimal_is_unambiguous(a[0] as nat, ta, b[0] as nat, tb);
        if a.len() > 1 && b.len() > 1 {
            lemma_same_parts(
                ", "@,
                comma_separated(decimals(ra)) + end,
                ", "@,
                comma_separated(decimals(rb)) + end,
            );
            lemma_lists_tell_bytes_apart(ra, rb, end);
        } else {
            assert(ta[0] == tb[0]);
        }
        assert(a =~= seq![a[0]] + ra);
        assert(b =~= seq![b[0]] + rb);
        if a.len() == 1 {
            assert(ra =~= rb);
        }
    }
}

proof fn lemma_starts_with_digit(bytes: Seq<u8>)
    requires
        bytes.len() > 0,
    ensures
        comma_separated(decimals(bytes)).len() > 0,
        is_digit(comma_separated(decimals(bytes))[0]),
{
    lemma_dec_is_digits(bytes[0] as nat);
    if bytes.len() > 1 {
        lemma_list_from_the_front(bytes);
    }
}

/// A list of bytes can be read in one way only: where two lists are the same text, the bytes are
/// the same.
pub proof fn law_lists_of_bytes_are_unambiguous(a: Seq<u8>, b: Seq<u8>)
    requires
        bracketed(decimals(a)) == bracketed(decimals(b)),
    ensures
        a == b,
{
    reveal_strlit("]");
    let (x, y) = (comma_separated(decimals(a)), comma_separated(decimals(b)));
    assert(bracketed(decimals(a)) =~= "["@ + (x + "]"@));
    assert(bracketed(decimals(b)) =~= "["@ + (y + "]"@));
    lemma_same_parts("["@, x + "]"@, "["@, y + "]"@);
    lemma_lists_tell_bytes_apart(a, b, "]"@);
}

/// `bytes` in decimal, as a list in square brackets.
pub fn list_of_bytes(bytes: &[u8]) -> (text: String)
    ensures
        text@ == bracketed(decimals(bytes@)),
{
    let mut items: Vec<String> = Vec::new();
    let mut i: usize = 0;
    while i < bytes.len()
        invariant
            i <= bytes@.len(),
            texts(items@) =~= decimals(bytes@).subrange(0, i as int),
        decreases bytes@.len() - i,
    {
        let ghost before = items@;
        items.push(decimal(bytes[i] as u64));
        proof {
            assert(texts(items@) =~= texts(before).push(dec(bytes@[i as int] as nat)));
        }
        i += 1;
    }
    proof {
        assert(texts(items@) =~= decimals(bytes@));
    }
    bracketed_list(&items)
}

/// Whether two texts are the same.
pub fn same_text(a: &str, b: &str) -> (r: bool)
    ensures
        r == (a@ == b@),
{
    let len = a.unicode_len();
    if b.unicode_len() != len {
        return false;
    }
    let mut i: usize = 0;
    while i < len
        invariant
            i <= len,
            len == a@.len(),
            len == b@.len(),
            forall|j: int| 0 <= j < i ==> a@[j] == b@[j],
        decreases len - i,
    {
        if a.get_char(i) != b.get_char(i) {
            return false;
        }
        i += 1;
    }
    proof {
        assert(a@ =~= b@);
    }
    true
}

/// Whether two lists hold the same texts in the same order.
pub fn same_texts(a: &[String], b: &[String]) -> (r: bool)
    ensures
        r == (texts(a@) == texts(b@)),
{
    if a.len() != b.len() {
        assert(texts(a@).len() != texts(b@).len());
        return false;
    }
    let mut i: usize = 0;
    while i < a.len()
        invariant
            i <= a@.len(),
            a@.len() == b@.len(),
            forall|j: int| 0 <= j < i ==> texts(a@)[j] == texts(b@)[j],
        decreases a@.len() - i,
    {
        if !same_text(a[i].as_str(), b[i].as_str()) {
            assert(texts(a@)[i as int] != texts(b@)[i as int]);
            return false;
        }
        i += 1;
    }
    proof {
        assert(texts(a@) =~= texts(b@));
    }
    true
}

/// A copy of a list of texts.
pub fn copy_texts(items: &[String]) -> (r: Vec<String>)
    ensures
        texts(r@) == texts(items@),
{
    let mut r: Vec<String> = Vec::new();
    let mut i: usize = 0;
    while i < items.len()
        invariant
            i <= items@.len(),
            texts(r@) =~= texts(items@).subrange(0, i as int),
        decreases items@.len() - i,
    {
        let ghost before = r@;
        r.push(items[i].clone());
        proof {
            assert(texts(r@) =~= texts(before).push(items@[i as int]@));
        }
        i += 1;
    }
    proof {
        assert(texts(r@) =~= texts(items@));
    }
    r
}

} // verus!
