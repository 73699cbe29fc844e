//! Text of the panel: numerals, and what can be told from the first characters of a status.
use vstd::prelude::*;
use vstd::string::*;
use vstd::utf8::{
    encode_scalar, encode_utf8, encode_utf8_first_scalar, encode_utf8_valid_utf8,
    is_char_boundary, is_char_boundary_iff_not_is_continuation_byte,
    is_char_boundary_start_end_of_seq, pop_first_scalar,
};

verus! {

/// The digit for `d`.
pub open spec fn digit(d: int) -> char {
    "0123456789ABCDEF"@[d]
}

/// The decimal numeral of `n`.
pub open spec fn decimal_of(n: nat) -> Seq<char>
    decreases n,
{
    if n < 10 {
        seq![digit(n as int)]
    } else {
        decimal_of(n / 10).push(digit((n % 10) as int))
    }
}

/// The hexadecimal numeral of `n`, in capitals.
pub open spec fn hex_of(n: nat) -> Seq<char>
    decreases n,
{
    if n < 16 {
        seq![digit(n as int)]
    } else {
        hex_of(n / 16).push(digit((n % 16) as int))
    }
}

/// The digit for `d`, as text.
fn digit_text(d: usize) -> (s: &'static str)
    requires
        d < 16,
    ensures
        s@ == seq![digit(d as int)],
{
    proof {
        reveal_strlit("0123456789ABCDEF");
    }
    let s = "0123456789ABCDEF".substring_char(d, d + 1);
    assert(s@ =~= seq![digit(d as int)]);
    s
}

/// The decimal numeral of `n`.
pub fn decimal(n: u64) -> (s: String)
    ensures
        s@ == decimal_of(n as nat),
    decreases n,
{
    if n < 10 {
        digit_text(n as usize).to_owned()
    } else {
        let mut s = decimal(n / 10);
        s.append(digit_text((n % 10) as usize));
        assert(s@ =~= decimal_of((n / 10) as nat).push(digit((n % 10) as int)));
        s
    }
}

/// The hexadecimal numeral of `n`, in capitals.
pub fn hex(n: u32) -> (s: String)
    ensures
        s@ == hex_of(n as nat),
    decreases n,
{
    if n < 16 {
        digit_text(n as usize).to_owned()
    } else {
        let mut s = hex(n / 16);
        s.append(digit_text((n % 16) as usize));
        assert(s@ =~= hex_of((n / 16) as nat).push(digit((n % 16) as int)));
        s
    }
}

/// Two texts, one after the other.
pub fn joined(first: &str, second: &str) -> (s: String)
    ensures
        s@ == first@ + second@,
{
    let mut s = first.to_owned();
    s.append(second);
    s
}

/// The first four bytes of the text can be told apart: there are fewer than four, or no
/// character spans the fourth byte and the fifth.
pub open spec fn splits_at_four(s: Seq<char>) -> bool {
    encode_utf8(s).len() >= 4 ==> is_char_boundary(encode_utf8(s), 4)
}

/// Whether the first four bytes of the text can be told apart.
pub fn can_split_at_four(s: &str) -> (b: bool)
    ensures
        b == splits_at_four(s@),
{
    s.as_bytes().len() < 4 || s.is_char_boundary(4)
}

/// The text starts with the four characters of `prefix`.
pub open spec fn starts_with_four(s: Seq<char>, prefix: Seq<char>) -> bool {
    s.len() >= 4 && s.take(4) == prefix.take(4)
}

/// A text that starts with four ASCII characters splits behind them.
pub proof fn lemma_ascii_splits_at_four(s: Seq<char>)
    requires
        s.len() >= 4,
        forall|i: int| 0 <= i < 4 ==> (#[trigger] s[i]) as u32 <= 0x7F,
    ensures
        splits_at_four(s),
{
    let s1 = s.drop_first();
    let s2 = s1.drop_first();
    let s3 = s2.drop_first();
    let s4 = s3.drop_first();
    lemma_boundary_behind_ascii(s, 4);
    lemma_boundary_behind_ascii(s1, 3);
    lemma_boundary_behind_ascii(s2, 2);
    lemma_boundary_behind_ascii(s3, 1);
    encode_utf8_valid_utf8(s4);
    assert(is_char_boundary(encode_utf8(s4), 0));
}

/// Behind one ASCII character, the boundaries are those of the rest, one byte further on.
proof fn lemma_boundary_behind_ascii(s: Seq<char>, at: int)
    requires
        s.len() >= 1,
        s[0] as u32 <= 0x7F,
        at > 0,
    ensures
        at <= encode_utf8(s).len() ==> is_char_boundary(encode_utf8(s), at) == is_char_boundary(
            encode_utf8(s.drop_first()),
            at - 1,
        ),
{
    let bytes = encode_utf8(s);
    encode_utf8_valid_utf8(s);
    encode_utf8_first_scalar(s);
    assert(encode_scalar(s[0] as u32).len() == 1);
    assert(pop_first_scalar(bytes) =~= encode_utf8(s.drop_first()));
}

/// Whether the text starts with the four characters of `prefix`.
pub fn has_prefix_of_four(s: &str, prefix: &str) -> (b: bool)
    requires
        prefix@.len() >= 4,
    ensures
        b == starts_with_four(s@, prefix@),
{
    if s.unicode_len() < 4 {
        return false;
    }
    let mut i: usize = 0;
    while i < 4
        invariant
            0 <= i <= 4,
            s@.len() >= 4,
            prefix@.len() >= 4,
            forall|j: int| 0 <= j < i ==> s@[j] == prefix@[j],
        decreases 4 - i,
    {
        if s.get_char(i) != prefix.get_char(i) {
            assert(s@.take(4)[i as int] != prefix@.take(4)[i as int]);
            return false;
        }
        i = i + 1;
    }
    assert(s@.take(4) =~= prefix@.take(4));
    true
}

/// What a digit is worth; -1 for any other character.
pub open spec fn worth_of_digit(c: char) -> int {
    if '0' <= c && c <= '9' {
        c as int - '0' as int
    } else if 'A' <= c && c <= 'F' {
        c as int - 'A' as int + 10
    } else {
        -1
    }
}

/// What a numeral to this base is worth.
pub open spec fn worth(numeral: Seq<char>, base: int) -> int
    decreases numeral.len(),
{
    if numeral.len() == 0 {
        0
    } else {
        base * worth(numeral.drop_last(), base) + worth_of_digit(numeral.last())
    }
}

/// The text is a numeral to this base, with no zero in front.
pub open spec fn is_numeral(text: Seq<char>, base: int) -> bool {
    &&& text.len() > 0
    &&& text.len() > 1 ==> text[0] != '0'
    &&& forall|i: int| 0 <= i < text.len() ==> 0 <= worth_of_digit(#[trigger] text[i]) < base
}

/// A digit is worth its number.
proof fn lemma_digit(d: int)
    requires
        0 <= d < 16,
    ensures
        worth_of_digit(digit(d)) == d,
        digit(d) == '0' <==> d == 0,
{
    reveal_strlit("0123456789ABCDEF");
    assert(d == 0 || d == 1 || d == 2 || d == 3 || d == 4 || d == 5 || d == 6 || d == 7 || d == 8
        || d == 9 || d == 10 || d == 11 || d == 12 || d == 13 || d == 14 || d == 15);
}

/// The decimal numeral of a number is worth that number.
pub proof fn law_decimal_is_worth_its_number(n: nat)
    ensures
        is_numeral(decimal_of(n), 10),
        worth(decimal_of(n), 10) == n,
        n > 0 ==> decimal_of(n)[0] != '0',
    decreases n,
{
    let text = decimal_of(n);
    lemma_digit((n % 10) as int);
    if n < 10 {
        reveal_with_fuel(worth, 2);
    } else {
        law_decimal_is_worth_its_number(n / 10);
        assert(text.drop_last() =~= decimal_of(n / 10));
    }
}

/// The hexadecimal numeral of a number, in capitals, is worth that number.
pub proof fn law_hex_is_worth_its_number(n: nat)
    ensures
        is_numeral(hex_of(n), 16),
        worth(hex_of(n), 16) == n,
        n > 0 ==> hex_of(n)[0] != '0',
    decreases n,
{
    let text = hex_of(n);
    lemma_digit((n % 16) as int);
    if n < 16 {
        reveal_with_fuel(worth, 2);
    } else {
        law_hex_is_worth_its_number(n / 16);
        assert(text.drop_last() =~= hex_of(n / 16));
    }
}

/// A text starts with four characters if and only if it is they and something after them.
pub proof fn law_prefix_is_in_front(s: Seq<char>, prefix: Seq<char>, rest: Seq<char>)
    requires
        prefix.len() == 4,
    ensures
        starts_with_four(prefix + rest, prefix),
        starts_with_four(s, prefix) ==> s == prefix + s.skip(4),
{
    assert((prefix + rest).take(4) =~= prefix.take(4));
    if starts_with_four(s, prefix) {
        assert(prefix.take(4) =~= prefix);
        assert(s =~= s.take(4) + s.skip(4));
    }
}

/// The first four bytes of a text can be told apart if and only if there is no fifth byte, or it
/// is not one that continues a character.
pub proof fn law_split_goes_by_the_fifth_byte(s: Seq<char>)
    ensures
        splits_at_four(s) <==> encode_utf8(s).len() <= 4 || !(0x80 <= encode_utf8(s)[4] <= 0xBF),
{
    let bytes = encode_utf8(s);
    encode_utf8_valid_utf8(s);
    is_char_boundary_start_end_of_seq(bytes);
    if bytes.len() > 4 {
        is_char_boundary_iff_not_is_continuation_byte(bytes, 4);
    }
}

} // verus!
