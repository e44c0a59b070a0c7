//! Identifiers and the text they are written as.

use vstd::prelude::*;

verus! {

/// An identifier: the 128 bits of a UUID, read as one big-endian number.
pub type Uuid = u128;

/// The character that writes the hexadecimal digit `digit`, in lower case.
pub open spec fn hex_char(digit: int) -> char {
    seq!['0', '1', '2', '3', '4', '5', '6', '7', '8', '9', 'a', 'b', 'c', 'd', 'e', 'f'][digit]
}

/// The `k`-th of the 32 hexadecimal digits of `id`, the most significant first.
pub open spec fn hex_digit(id: Uuid, k: int) -> int {
    ((id >> ((4 * (31 - k)) as u128)) & 0xf) as int
}

/// How many hyphens stand before position `i` of the written form.
pub open spec fn hyphens_before(i: int) -> int {
    if i <= 8 {
        0
    } else if i <= 13 {
        1
    } else if i <= 18 {
        2
    } else if i <= 23 {
        3
    } else {
        4
    }
}

/// The written form of an identifier: its 32 digits in groups of 8, 4, 4, 4
/// and 12, with a hyphen between two groups.
pub open spec fn hyphenated(id: Uuid) -> Seq<char> {
    Seq::new(
        36,
        |i: int|
            if i == 8 || i == 13 || i == 18 || i == 23 {
                '-'
            } else {
                hex_char(hex_digit(id, i - hyphens_before(i)))
            },
    )
}

/// Writes an identifier with `uuid::Uuid`'s `Display`, which gives the 36
/// characters of the hyphenated form with lower-case digits, whatever the bits.
#[verifier::external_body]
pub(crate) fn uuid_text(id: Uuid) -> (text: String)
    ensures
        text@ == hyphenated(id),
{
    uuid::Uuid::from_u128(id).to_string()
}

proof fn lemma_hex_char_injective(a: int, b: int)
    requires
        0 <= a < 16,
        0 <= b < 16,
        hex_char(a) == hex_char(b),
    ensures
        a == b,
{
}

proof fn lemma_digit_range(id: Uuid, k: int)
    requires
        0 <= k < 32,
    ensures
        0 <= hex_digit(id, k) < 16,
{
    let shift = (4 * (31 - k)) as u128;
    assert((id >> shift) & 0xf < 16) by (bit_vector);
}

proof fn lemma_same_digit(a: Uuid, b: Uuid, i: int)
    requires
        hyphenated(a) == hyphenated(b),
        0 <= i < 36,
        i != 8 && i != 13 && i != 18 && i != 23,
    ensures
        hex_digit(a, i - hyphens_before(i)) == hex_digit(b, i - hyphens_before(i)),
{
    let k = i - hyphens_before(i);
    lemma_digit_range(a, k);
    lemma_digit_range(b, k);
    assert(hyphenated(a)[i] == hex_char(hex_digit(a, k)));
    assert(hyphenated(b)[i] == hex_char(hex_digit(b, k)));
    lemma_hex_char_injective(hex_digit(a, k), hex_digit(b, k));
}

/// Different identifiers are written differently.
pub proof fn hyphenated_is_injective(a: Uuid, b: Uuid)
    requires
        hyphenated(a) == hyphenated(b),
    ensures
        a == b,
{
    assert forall|k: int| 0 <= k < 32 implies #[trigger] hex_digit(a, k) == hex_digit(b, k) by {
        let i = if k < 8 {
            k
        } else if k < 12 {
            k + 1
        } else if k < 16 {
            k + 2
        } else if k < 20 {
            k + 3
        } else {
            k + 4
        };
        lemma_same_digit(a, b, i);
    }
    let same = |k: int| hex_digit(a, k) == hex_digit(b, k);
    assert(same(0) && same(1) && same(2) && same(3) && same(4) && same(5) && same(6) && same(7));
    assert(same(8) && same(9) && same(10) && same(11) && same(12) && same(13) && same(14) && same(
        15,
    ));
    assert(same(16) && same(17) && same(18) && same(19) && same(20) && same(21) && same(22)
        && same(23));
    assert(same(24) && same(25) && same(26) && same(27) && same(28) && same(29) && same(30)
        && same(31));
    assert(a == b) by (bit_vector)
        requires
            (a >> 124) & 0xf == (b >> 124) & 0xf,
            (a >> 120) & 0xf == (b >> 120) & 0xf,
            (a >> 116) & 0xf == (b >> 116) & 0xf,
            (a >> 112) & 0xf == (b >> 112) & 0xf,
            (a >> 108) & 0xf == (b >> 108) & 0xf,
            (a >> 104) & 0xf == (b >> 104) & 0xf,
            (a >> 100) & 0xf == (b >> 100) & 0xf,
            (a >> 96) & 0xf == (b >> 96) & 0xf,
            (a >> 92) & 0xf == (b >> 92) & 0xf,
            (a >> 88) & 0xf == (b >> 88) & 0xf,
            (a >> 84) & 0xf == (b >> 84) & 0xf,
            (a >> 80) & 0xf == (b >> 80) & 0xf,
            (a >> 76) & 0xf == (b >> 76) & 0xf,
            (a >> 72) & 0xf == (b >> 72) & 0xf,
            (a >> 68) & 0xf == (b >> 68) & 0xf,
            (a >> 64) & 0xf == (b >> 64) & 0xf,
            (a >> 60) & 0xf == (b >> 60) & 0xf,
            (a >> 56) & 0xf == (b >> 56) & 0xf,
            (a >> 52) & 0xf == (b >> 52) & 0xf,
            (a >> 48) & 0xf == (b >> 48) & 0xf,
            (a >> 44) & 0xf == (b >> 44) & 0xf,
            (a >> 40) & 0xf == (b >> 40) & 0xf,
            (a >> 36) & 0xf == (b >> 36) & 0xf,
            (a >> 32) & 0xf == (b >> 32) & 0xf,
            (a >> 28) & 0xf == (b >> 28) & 0xf,
            (a >> 24) & 0xf == (b >> 24) & 0xf,
            (a >> 20) & 0xf == (b >> 20) & 0xf,
            (a >> 16) & 0xf == (b >> 16) & 0xf,
            (a >> 12) & 0xf == (b >> 12) & 0xf,
            (a >> 8) & 0xf == (b >> 8) & 0xf,
            (a >> 4) & 0xf == (b >> 4) & 0xf,
            (a >> 0) & 0xf == (b >> 0) & 0xf,
    ;
}

/// The number that a text of hexadecimal digits stands for; hyphens are passed over.
pub open spec fn read_hex(text: Seq<char>) -> int
    decreases text.len(),
{
    if text.len() == 0 {
        0
    } else if text.last() == '-' {
        read_hex(text.drop_last())
    } else if '0' <= text.last() <= '9' {
        16 * read_hex(text.drop_last()) + (text.last() as int - '0' as int)
    } else {
        16 * read_hex(text.drop_last()) + (text.last() as int - 'a' as int + 10)
    }
}

/// The number that the first `k` of the 32 digits stand for.
spec fn leading(id: Uuid, k: int) -> int {
    if k <= 0 {
        0
    } else {
        (id >> ((4 * (32 - k)) as u128)) as int
    }
}

proof fn lemma_leading(id: Uuid, k: int)
    requires
        0 <= k < 32,
    ensures
        leading(id, k + 1) == 16 * leading(id, k) + hex_digit(id, k),
{
    let shift = (4 * (31 - k)) as u128;
    assert(4 * (32 - (k + 1)) == 4 * (31 - k));
    if k == 0 {
        assert((id >> 124u128) & 0xf == id >> 124u128) by (bit_vector);
    } else {
        let more = (4 * (32 - k)) as u128;
        assert((id >> shift) as int == 16 * (id >> more) + ((id >> shift) & 0xf)) by (bit_vector)
            requires
                shift <= 120,
                more == shift + 4,
        ;
    }
}

proof fn lemma_reads_prefix(id: Uuid, i: int)
    requires
        0 <= i <= 36,
    ensures
        read_hex(hyphenated(id).take(i)) == leading(id, i - hyphens_before(i)),
    decreases i,
{
    let text = hyphenated(id);
    if i > 0 {
        lemma_reads_prefix(id, i - 1);
        assert(text.take(i).drop_last() =~= text.take(i - 1));
        assert(text.take(i).last() == text[i - 1]);
        if !(i == 9 || i == 14 || i == 19 || i == 24) {
            let k = i - 1 - hyphens_before(i - 1);
            lemma_digit_range(id, k);
            lemma_leading(id, k);
            assert(text[i - 1] == hex_char(hex_digit(id, k)));
        }
    }
}

/// The written form of an identifier has 36 characters: hyphens after 8, 12, 16
/// and 20 digits, and lower-case hexadecimal digits that read back as the identifier.
pub proof fn hyphenated_reads_back(id: Uuid)
    ensures
        hyphenated(id).len() == 36,
        forall|i: int|
            0 <= i < 36 ==> (#[trigger] hyphenated(id)[i] == '-' <==> i == 8 || i == 13 || i == 18
                || i == 23),
        forall|i: int|
            0 <= i < 36 ==> '0' <= #[trigger] hyphenated(id)[i] <= '9' || 'a' <= hyphenated(id)[i]
                <= 'f' || hyphenated(id)[i] == '-',
        read_hex(hyphenated(id)) == id,
{
    let text = hyphenated(id);
    assert forall|i: int| 0 <= i < 36 && !(i == 8 || i == 13 || i == 18 || i == 23) implies ('0'
        <= #[trigger] text[i] <= '9' || 'a' <= text[i] <= 'f') by {
        lemma_digit_range(id, i - hyphens_before(i));
    }
    lemma_reads_prefix(id, 36);
    assert(text.take(36) =~= text);
    assert(id >> 0u128 == id) by (bit_vector);
}

} // verus!
