//! Texts as bytes: how many bytes a text takes up, the part of it that fits
//! into so many bytes, and bytes that end within a character.
use vstd::prelude::*;
use vstd::utf8::{
    decode_utf8, encode_scalar, encode_utf8, is_continuation_byte, is_leading_byte_width_2,
    is_leading_byte_width_3, is_leading_byte_width_4, length_of_first_scalar, pop_first_scalar,
    take_first_scalar, valid_first_scalar, valid_utf8,
};

use crate::text::chars_of;

verus! {

// ---------------------------------------------------------------------------
// Cutting a text
// ---------------------------------------------------------------------------

/// The number of bytes that a text takes up.
pub open spec fn byte_len(text: Seq<char>) -> nat {
    encode_utf8(text).len()
}

/// The longest run of whole characters at the front of a text that takes up
/// at most `n` bytes.
pub open spec fn cut(text: Seq<char>, n: int) -> Seq<char>
    decreases text.len(),
{
    if text.len() == 0 || byte_len(text) <= n {
        text
    } else {
        cut(text.drop_last(), n)
    }
}

proof fn lemma_encode_concat(a: Seq<char>, b: Seq<char>)
    ensures
        encode_utf8(a + b) == encode_utf8(a) + encode_utf8(b),
    decreases a.len(),
{
    if a.len() == 0 {
        assert(a + b =~= b);
        assert(encode_utf8(a) + encode_utf8(b) =~= encode_utf8(b));
    } else {
        lemma_encode_concat(a.drop_first(), b);
        assert((a + b).drop_first() =~= a.drop_first() + b);
        assert(encode_utf8(a + b) =~= encode_utf8(a) + encode_utf8(b));
    }
}

proof fn lemma_byte_len_of_front(text: Seq<char>, i: int)
    requires
        0 <= i < text.len(),
    ensures
        byte_len(text.take(i + 1)) == byte_len(text.take(i)) + encode_scalar(text[i] as u32).len(),
        byte_len(text.take(i + 1)) <= byte_len(text),
{
    let one = seq![text[i]];
    assert(text.take(i + 1) =~= text.take(i) + one);
    lemma_encode_concat(text.take(i), one);
    assert(one.drop_first() =~= Seq::<char>::empty());
    assert(encode_utf8(one.drop_first()) =~= Seq::<u8>::empty());
    assert(encode_utf8(one) =~= encode_scalar(text[i] as u32));
    lemma_encode_concat(text.take(i + 1), text.skip(i + 1));
    assert(text =~= text.take(i + 1) + text.skip(i + 1));
}

/// A cut text is the front of the text, it fits, and one more character would
/// not.
pub proof fn law_cut_is_longest(text: Seq<char>, n: int)
    requires
        n >= 0,
    ensures
        cut(text, n).len() <= text.len(),
        cut(text, n) == text.take(cut(text, n).len() as int),
        byte_len(cut(text, n)) <= n,
        cut(text, n).len() < text.len() ==> byte_len(text.take(cut(text, n).len() as int + 1))
            > n,
    decreases text.len(),
{
    if text.len() == 0 || byte_len(text) <= n {
        assert(text.take(text.len() as int) =~= text);
    } else {
        let front = text.drop_last();
        law_cut_is_longest(front, n);
        let len = cut(front, n).len() as int;
        assert(front.take(len) =~= text.take(len));
        if len < front.len() {
            assert(front.take(len + 1) =~= text.take(len + 1));
        } else {
            assert(text.take(len + 1) =~= text);
        }
    }
}

proof fn lemma_cut_after(text: Seq<char>, n: int, i: int)
    requires
        0 <= i <= text.len(),
        byte_len(text.take(i)) <= n,
        i < text.len() ==> byte_len(text.take(i + 1)) > n,
    ensures
        cut(text, n) == text.take(i),
    decreases text.len(),
{
    if i == text.len() {
        assert(text.take(i) =~= text);
    } else {
        lemma_byte_len_of_front(text, i);
        let front = text.drop_last();
        assert(front.take(i) =~= text.take(i));
        if i < front.len() {
            assert(front.take(i + 1) =~= text.take(i + 1));
        }
        lemma_cut_after(front, n, i);
    }
}

fn char_width(c: char) -> (width: usize)
    ensures
        width == encode_scalar(c as u32).len(),
{
    let code: u32 = c as u32;
    if code <= 0x7f {
        1
    } else if code <= 0x7ff {
        2
    } else if code <= 0xffff {
        3
    } else {
        4
    }
}

/// The part of a text that fits into `n` bytes.
pub fn cut_text(text: &str, n: usize) -> (out: String)
    ensures
        out@ == cut(text@, n as int),
{
    let chars = chars_of(text);
    let mut out = String::new();
    let mut used: usize = 0;
    let mut i: usize = 0;
    assert(text@.take(0) =~= Seq::<char>::empty());
    assert(out@ =~= text@.take(0));
    while i < chars.len()
        invariant
            chars@ == text@,
            i <= chars.len(),
            out@ == text@.take(i as int),
            used == byte_len(text@.take(i as int)),
            used <= n,
        decreases chars.len() - i,
    {
        let width = char_width(chars[i]);
        proof {
            lemma_byte_len_of_front(text@, i as int);
        }
        if width > n - used {
            proof {
                lemma_cut_after(text@, n as int, i as int);
            }
            return out;
        }
        out.push(chars[i]);
        used += width;
        assert(text@.take(i + 1) =~= text@.take(i as int).push(text@[i as int]));
        i += 1;
    }
    proof {
        lemma_cut_after(text@, n as int, i as int);
    }
    out
}

// ---------------------------------------------------------------------------
// Bytes that end within a character
// ---------------------------------------------------------------------------

/// The number of bytes of a character that begins with a byte, as far as it is
/// more than one.
pub open spec fn announced_width(byte: u8) -> int {
    if is_leading_byte_width_2(byte) {
        2
    } else if is_leading_byte_width_3(byte) {
        3
    } else if is_leading_byte_width_4(byte) {
        4
    } else {
        1
    }
}

/// The last `k` bytes are the beginning of a character of more than `k` bytes.
pub open spec fn ends_within(bytes: Seq<u8>, k: int) -> bool {
    &&& 1 <= k <= bytes.len()
    &&& announced_width(bytes[bytes.len() - k]) > k
    &&& forall|i: int|
        bytes.len() - k < i < bytes.len() ==> is_continuation_byte(#[trigger] bytes[i])
}

/// How many bytes at the end are the beginning of a character that is not
/// complete.
pub open spec fn unfinished(bytes: Seq<u8>) -> int {
    if ends_within(bytes, 1) {
        1
    } else if ends_within(bytes, 2) {
        2
    } else if ends_within(bytes, 3) {
        3
    } else {
        0
    }
}

/// The bytes up to a character that is not complete.
pub open spec fn whole_part(bytes: Seq<u8>) -> Seq<u8> {
    bytes.take(bytes.len() - unfinished(bytes))
}

/// The bytes of a character that is not complete.
pub open spec fn unfinished_part(bytes: Seq<u8>) -> Seq<u8> {
    bytes.skip(bytes.len() - unfinished(bytes))
}

fn byte_announces(byte: u8) -> (width: usize)
    ensures
        width == announced_width(byte),
{
    if 0xc0 <= byte && byte <= 0xdf {
        2
    } else if 0xe0 <= byte && byte <= 0xef {
        3
    } else if 0xf0 <= byte && byte <= 0xf7 {
        4
    } else {
        1
    }
}

/// How many bytes at the end are the beginning of a character that is not
/// complete.
pub fn unfinished_len(bytes: &Vec<u8>) -> (count: usize)
    ensures
        count == unfinished(bytes@),
        count <= bytes.len(),
{
    let n = bytes.len();
    let mut k: usize = 1;
    while k <= 3 && k <= n
        invariant
            n == bytes.len(),
            1 <= k <= 4,
            forall|j: int| 1 <= j < k ==> !ends_within(bytes@, j),
            forall|i: int| n - k < i < n ==> is_continuation_byte(#[trigger] bytes@[i]),
        decreases 4 - k,
    {
        let byte = bytes[n - k];
        if byte_announces(byte) > k {
            return k;
        }
        if byte < 0x80 || byte > 0xbf {
            assert forall|j: int| k < j implies !ends_within(bytes@, j) by {
                if j <= n {
                    assert(!is_continuation_byte(bytes@[n - k]));
                }
            }
            return 0;
        }
        k += 1;
    }
    0
}

proof fn lemma_valid_is_finished(bytes: Seq<u8>)
    requires
        valid_utf8(bytes),
    ensures
        unfinished(bytes) == 0,
    decreases bytes.len(),
{
    if bytes.len() > 0 {
        let rest = pop_first_scalar(bytes);
        if rest.len() > 0 {
            lemma_valid_is_finished(rest);
            assert(valid_first_scalar(rest)) by {
                reveal_with_fuel(valid_utf8, 2);
            }
            lemma_unfinished_behind(take_first_scalar(bytes), rest);
            assert(bytes =~= take_first_scalar(bytes) + rest);
        } else {
            assert(!ends_within(bytes, 1));
            assert(!ends_within(bytes, 2));
            assert(!ends_within(bytes, 3));
        }
    }
}

/// What is unfinished at the end of some bytes does not depend on what stands
/// before the beginning of a character.
proof fn lemma_unfinished_behind(front: Seq<u8>, bytes: Seq<u8>)
    requires
        bytes.len() > 0,
        !is_continuation_byte(bytes[0]),
    ensures
        unfinished(front + bytes) == unfinished(bytes),
{
    let all = front + bytes;
    assert forall|k: int| 1 <= k <= 3 implies ends_within(all, k) == ends_within(bytes, k) by {
        if k <= bytes.len() {
            assert forall|i: int| bytes.len() - k <= i < bytes.len() implies all[front.len() + i]
                == #[trigger] bytes[i] by {}
            if ends_within(bytes, k) {
                assert forall|i: int| all.len() - k < i < all.len() implies is_continuation_byte(
                    #[trigger] all[i],
                ) by {
                    assert(all[i] == bytes[i - front.len()]);
                }
            }
            if ends_within(all, k) {
                assert forall|i: int|
                    bytes.len() - k < i < bytes.len() implies is_continuation_byte(
                    #[trigger] bytes[i],
                ) by {
                    assert(all[front.len() + i] == bytes[i]);
                }
            }
        } else {
            assert(all[front.len() as int] == bytes[0]);
        }
    }
}

/// As long as bytes are the front of valid UTF-8, what they hold of whole
/// characters is valid UTF-8.
pub proof fn lemma_whole_part_is_valid(bytes: Seq<u8>, j: int)
    requires
        valid_utf8(bytes),
        0 <= j <= bytes.len(),
    ensures
        0 <= unfinished(bytes.take(j)) <= j,
        valid_utf8(whole_part(bytes.take(j))),
        j == bytes.len() ==> unfinished(bytes.take(j)) == 0,
    decreases bytes.len(),
{
    let front = bytes.take(j);
    if j == bytes.len() {
        assert(front =~= bytes);
        lemma_valid_is_finished(bytes);
        assert(whole_part(front) =~= bytes);
    } else if j == 0 {
        assert(whole_part(front) =~= Seq::<u8>::empty());
    } else {
        let width = length_of_first_scalar(bytes);
        if j < width {
            assert(ends_within(front, j));
            assert(!ends_within(front, 1) || j == 1);
            assert(!ends_within(front, 2) || j == 2);
            assert(unfinished(front) == j);
            assert(whole_part(front) =~= Seq::<u8>::empty());
        } else {
            let first = take_first_scalar(bytes);
            let rest = pop_first_scalar(bytes);
            assert(valid_utf8(first)) by {
                reveal_with_fuel(valid_utf8, 2);
            }
            lemma_whole_part_is_valid(rest, j - width);
            assert(front =~= first + rest.take(j - width));
            if j == width {
                assert(front =~= first);
                lemma_valid_is_finished(first);
                assert(whole_part(front) =~= first);
            } else {
                lemma_unfinished_behind(first, rest.take(j - width));
                vstd::utf8::valid_utf8_concat(first, whole_part(rest.take(j - width)));
                assert(whole_part(front) =~= first + whole_part(rest.take(j - width)));
            }
        }
    }
}

/// Valid UTF-8 behind valid UTF-8 is read as the one text behind the other.
pub proof fn lemma_decode_concat(a: Seq<u8>, b: Seq<u8>)
    requires
        valid_utf8(a),
        valid_utf8(b),
    ensures
        valid_utf8(a + b),
        decode_utf8(a + b) == decode_utf8(a) + decode_utf8(b),
    decreases a.len(),
{
    vstd::utf8::valid_utf8_concat(a, b);
    if a.len() == 0 {
        assert(a + b =~= b);
        assert(decode_utf8(a) + decode_utf8(b) =~= decode_utf8(b));
    } else {
        let rest = pop_first_scalar(a);
        lemma_decode_concat(rest, b);
        assert(pop_first_scalar(a + b) =~= rest + b);
        assert(decode_utf8(a + b) =~= decode_utf8(a) + decode_utf8(b));
    }
}

/// Behind whole characters, the whole characters and the rest of bytes stay
/// what they are.
proof fn lemma_parts_behind(front: Seq<u8>, bytes: Seq<u8>, j: int)
    requires
        valid_utf8(front),
        valid_utf8(bytes),
        0 <= j <= bytes.len(),
    ensures
        ({
            let arrived = bytes.take(j);
            &&& valid_utf8(whole_part(arrived))
            &&& whole_part(front + arrived) == front + whole_part(arrived)
            &&& unfinished_part(front + arrived) == unfinished_part(arrived)
        }),
{
    let arrived = bytes.take(j);
    lemma_whole_part_is_valid(bytes, j);
    if j == 0 {
        assert(front + arrived =~= front);
        lemma_valid_is_finished(front);
    } else {
        assert(arrived[0] == bytes[0]);
        lemma_unfinished_behind(front, arrived);
    }
    assert(whole_part(front + arrived) =~= front + whole_part(arrived));
    assert(unfinished_part(front + arrived) =~= unfinished_part(arrived));
}

/// Two portions of what is the front of valid UTF-8, the second one read
/// behind what is left of the first one: together they hold the whole
/// characters of both, and leave what is left of both.
pub proof fn lemma_portions_join(bytes: Seq<u8>, i: int, j: int)
    requires
        valid_utf8(bytes),
        0 <= i <= j <= bytes.len(),
    ensures
        ({
            let first = bytes.take(i);
            let both = bytes.take(j);
            let arrived = unfinished_part(first) + bytes.subrange(i, j);
            &&& valid_utf8(whole_part(first))
            &&& valid_utf8(whole_part(arrived))
            &&& whole_part(both) == whole_part(first) + whole_part(arrived)
            &&& unfinished_part(both) == unfinished_part(arrived)
        }),
{
    let first = bytes.take(i);
    lemma_whole_part_is_valid(bytes, i);
    let start = i - unfinished(first);
    let rest = bytes.subrange(start, bytes.len() as int);
    assert(bytes.subrange(0, start) =~= whole_part(first));
    if !valid_utf8(rest) {
        vstd::utf8::partial_valid_partial_invalid_utf8(bytes, start);
    }
    lemma_parts_behind(whole_part(first), rest, j - start);
    assert(unfinished_part(first) + bytes.subrange(i, j) =~= rest.take(j - start));
    assert(bytes.take(j) =~= whole_part(first) + rest.take(j - start));
}

/// At most three bytes at the end are taken to be the beginning of a character:
/// a byte that begins one of several bytes, and the continuation bytes behind
/// it, fewer than it calls for. Bytes that end in ASCII are complete.
pub proof fn law_unfinished_bytes(bytes: Vec<u8>, count: usize)
    requires
        call_ensures(unfinished_len, (&bytes,), count),
    ensures
        count <= 3,
        count <= bytes@.len(),
        count > 0 ==> {
            let first = bytes@[bytes@.len() - count];
            &&& 0xc0 <= first <= 0xf7
            &&& count >= 2 ==> first >= 0xe0
            &&& count >= 3 ==> first >= 0xf0
        },
        forall|i: int|
            bytes@.len() - count < i < bytes@.len() ==> 0x80 <= #[trigger] bytes@[i] <= 0xbf,
        bytes@.len() > 0 && bytes@.last() < 0x80 ==> count == 0,
        bytes@.len() > 0 && 0xc0 <= bytes@.last() <= 0xf7 ==> count == 1,
{
}

} // verus!
