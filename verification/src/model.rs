//! The mathematical model of the codec: which bytes are hex digits or
//! whitespace, what a character stream decodes to, and what a byte stream
//! encodes to, all stated over `Seq<u8>`.

use vstd::prelude::*;

verus! {

/// A byte is a hex digit: one of the characters `0-9`, `a-f` or `A-F`.
pub open spec fn is_hex_digit(b: u8) -> bool {
    (0x30 <= b && b <= 0x39) || (0x61 <= b && b <= 0x66) || (0x41 <= b && b <= 0x46)
}

/// The nibble value (0-15) of a hex digit. Meaningful only when
/// `is_hex_digit(b)` holds.
pub open spec fn hex_digit_value(b: u8) -> u8 {
    if 0x30 <= b && b <= 0x39 {
        (b - 0x30) as u8
    } else if 0x61 <= b && b <= 0x66 {
        (b - 0x61 + 10) as u8
    } else if 0x41 <= b && b <= 0x46 {
        (b - 0x41 + 10) as u8
    } else {
        0
    }
}

/// A byte whose Latin-1 character is whitespace: the ASCII whitespace
/// characters (tab, line feed, vertical tab, form feed, carriage return,
/// space) together with next-line (U+0085) and no-break space (U+00A0),
/// the only other characters below U+0100 with the White_Space property.
pub open spec fn is_whitespace_byte(b: u8) -> bool {
    b == 0x09 || b == 0x0a || b == 0x0b || b == 0x0c || b == 0x0d || b == 0x20 || b == 0x85
        || b == 0xa0
}

/// Garbage: a byte that is neither whitespace nor a hex digit.
pub open spec fn is_garbage(b: u8) -> bool {
    !is_whitespace_byte(b) && !is_hex_digit(b)
}

/// The byte represented by a pair of hex digits, high nibble first.
/// Meaningful only when both bytes are hex digits.
pub open spec fn byte_of_pair(hi: u8, lo: u8) -> u8 {
    (hex_digit_value(hi) * 16 + hex_digit_value(lo)) as u8
}

/// The subsequence of hex digits of a stream, in order: exactly the
/// characters the decoder pairs up once whitespace and garbage are skipped.
pub open spec fn hex_digits(s: Seq<u8>) -> Seq<u8>
    decreases s.len(),
{
    if s.len() == 0 {
        Seq::empty()
    } else if is_hex_digit(s[0]) {
        seq![s[0]] + hex_digits(s.skip(1))
    } else {
        hex_digits(s.skip(1))
    }
}

/// The bytes formed by pairing up a stream of hex digits, two at a time,
/// high nibble first. A trailing unpaired digit contributes nothing.
pub open spec fn pair_up(d: Seq<u8>) -> Seq<u8>
    decreases d.len(),
{
    if d.len() < 2 {
        Seq::empty()
    } else {
        seq![byte_of_pair(d[0], d[1])] + pair_up(d.skip(2))
    }
}

/// The stream holds no garbage byte.
pub open spec fn garbage_free(s: Seq<u8>) -> bool {
    forall|i: int| 0 <= i < s.len() ==> !is_garbage(s[i])
}

/// The length of the longest garbage-free prefix of the stream: how far a
/// strict decode reads before it stops.
pub open spec fn clean_len(s: Seq<u8>) -> int
    decreases s.len(),
{
    if s.len() == 0 {
        0
    } else if is_garbage(s[0]) {
        0
    } else {
        1 + clean_len(s.skip(1))
    }
}

/// The part of the stream the decoder consumes: all of it when garbage is
/// ignored, otherwise only the prefix before the first garbage byte.
pub open spec fn consumed(s: Seq<u8>, ignore_garbage: bool) -> Seq<u8> {
    if ignore_garbage {
        s
    } else {
        s.take(clean_len(s))
    }
}

/// The bytes a decode of the stream writes to its destination.
pub open spec fn decoded_bytes(s: Seq<u8>, ignore_garbage: bool) -> Seq<u8> {
    pair_up(hex_digits(consumed(s, ignore_garbage)))
}

/// The uppercase hex character of a nibble value. Meaningful only for
/// `v < 16`.
pub open spec fn hex_upper_char(v: u8) -> u8 {
    if v < 10 {
        (v + 0x30) as u8
    } else {
        (v - 10 + 0x41) as u8
    }
}

/// The canonical hex encoding of a byte stream: each byte as two uppercase
/// hex characters, high nibble first, with no separators.
pub open spec fn hex_encoding(b: Seq<u8>) -> Seq<u8>
    decreases b.len(),
{
    if b.len() == 0 {
        Seq::empty()
    } else {
        seq![hex_upper_char(b[0] / 16), hex_upper_char(b[0] % 16)] + hex_encoding(b.skip(1))
    }
}

/// The stream with its whitespace bytes removed.
pub open spec fn without_whitespace(s: Seq<u8>) -> Seq<u8>
    decreases s.len(),
{
    if s.len() == 0 {
        Seq::empty()
    } else if is_whitespace_byte(s[0]) {
        without_whitespace(s.skip(1))
    } else {
        seq![s[0]] + without_whitespace(s.skip(1))
    }
}

/// Appending a byte to a stream appends it to the stream's hex digits when
/// it is one, and leaves them unchanged otherwise.
pub proof fn lemma_hex_digits_push(s: Seq<u8>, c: u8)
    ensures
        hex_digits(s.push(c)) == (if is_hex_digit(c) {
            hex_digits(s).push(c)
        } else {
            hex_digits(s)
        }),
    decreases s.len(),
{
    if s.len() == 0 {
        assert(s.push(c).skip(1) =~= s);
        assert(s.push(c)[0] == c);
        if is_hex_digit(c) {
            assert(seq![c] + hex_digits(s) =~= hex_digits(s).push(c));
        }
    } else {
        assert(s.push(c).skip(1) =~= s.skip(1).push(c));
        assert(s.push(c)[0] == s[0]);
        lemma_hex_digits_push(s.skip(1), c);
        if is_hex_digit(s[0]) {
            assert(hex_digits(s.push(c)) == seq![s[0]] + hex_digits(s.skip(1).push(c)));
            if is_hex_digit(c) {
                assert(seq![s[0]] + hex_digits(s.skip(1)).push(c) =~= (seq![s[0]] + hex_digits(
                    s.skip(1),
                )).push(c));
            }
        }
    }
}

/// Appending a hex digit to an even run of digits leaves the paired bytes
/// unchanged; appending it to an odd run completes one more byte.
pub proof fn lemma_pair_up_push(d: Seq<u8>, c: u8)
    ensures
        pair_up(d.push(c)) == (if d.len() % 2 == 1 {
            pair_up(d).push(byte_of_pair(d.last(), c))
        } else {
            pair_up(d)
        }),
    decreases d.len(),
{
    if d.len() == 0 {
        assert(d.push(c).len() == 1);
        assert(pair_up(d.push(c)) == Seq::<u8>::empty());
        assert(pair_up(d) == Seq::<u8>::empty());
    } else if d.len() == 1 {
        assert(d.push(c)[0] == d[0]);
        assert(d.push(c)[1] == c);
        assert(d.push(c).skip(2) =~= Seq::<u8>::empty());
        assert(pair_up(d.push(c)) == seq![byte_of_pair(d[0], c)] + pair_up(Seq::<u8>::empty()));
        assert(pair_up(d) == Seq::<u8>::empty());
        assert(seq![byte_of_pair(d.last(), c)] + Seq::<u8>::empty() =~= pair_up(d).push(
            byte_of_pair(d.last(), c),
        ));
    } else {
        assert(d.push(c)[0] == d[0]);
        assert(d.push(c)[1] == d[1]);
        assert(d.push(c).skip(2) =~= d.skip(2).push(c));
        lemma_pair_up_push(d.skip(2), c);
        assert(pair_up(d.push(c)) == seq![byte_of_pair(d[0], d[1])] + pair_up(d.skip(2).push(c)));
        if d.len() % 2 == 1 {
            assert(d.skip(2).len() % 2 == 1);
            assert(d.skip(2).last() == d.last());
            assert(seq![byte_of_pair(d[0], d[1])] + pair_up(d.skip(2)).push(
                byte_of_pair(d.last(), c),
            ) =~= (seq![byte_of_pair(d[0], d[1])] + pair_up(d.skip(2))).push(
                byte_of_pair(d.last(), c),
            ));
        } else {
            assert(d.skip(2).len() % 2 == 0);
        }
    }
}

/// The longest garbage-free prefix of a stream ends exactly at the first
/// garbage byte, or takes in the whole stream when there is none.
pub proof fn lemma_clean_len_at(s: Seq<u8>, i: int)
    requires
        0 <= i <= s.len(),
        forall|j: int| 0 <= j < i ==> !is_garbage(s[j]),
        i < s.len() ==> is_garbage(s[i]),
    ensures
        clean_len(s) == i,
    decreases s.len(),
{
    if s.len() == 0 {
    } else if is_garbage(s[0]) {
        assert(i == 0);
    } else {
        assert(i >= 1);
        assert(forall|j: int| 0 <= j < i - 1 ==> s.skip(1)[j] == s[j + 1]);
        assert(i - 1 < s.skip(1).len() ==> s.skip(1)[i - 1] == s[i]);
        lemma_clean_len_at(s.skip(1), i - 1);
    }
}

/// Appending a byte to a stream appends its two hex characters to the
/// stream's encoding.
pub proof fn lemma_hex_encoding_push(b: Seq<u8>, x: u8)
    ensures
        hex_encoding(b.push(x)) == hex_encoding(b) + seq![
            hex_upper_char(x / 16),
            hex_upper_char(x % 16),
        ],
    decreases b.len(),
{
    if b.len() == 0 {
        let pair = seq![hex_upper_char(x / 16), hex_upper_char(x % 16)];
        assert(b.push(x).skip(1) =~= b);
        assert(b.push(x)[0] == x);
        assert(hex_encoding(b.push(x)) == pair + hex_encoding(b));
        assert(pair + hex_encoding(b) =~= hex_encoding(b) + pair);
    } else {
        let pair = seq![hex_upper_char(x / 16), hex_upper_char(x % 16)];
        let head = seq![hex_upper_char(b[0] / 16), hex_upper_char(b[0] % 16)];
        assert(b.push(x).skip(1) =~= b.skip(1).push(x));
        lemma_hex_encoding_push(b.skip(1), x);
        assert(b.push(x).len() != 0);
        assert(b.push(x)[0] == b[0]);
        assert(hex_encoding(b.push(x)) == head + hex_encoding(b.skip(1).push(x)));
        assert(hex_encoding(b.push(x)) == head + (hex_encoding(b.skip(1)) + pair));
        assert(head + (hex_encoding(b.skip(1)) + pair) =~= (head + hex_encoding(b.skip(1)))
            + pair);
        assert(hex_encoding(b) == head + hex_encoding(b.skip(1)));
    }
}

/// The longest garbage-free prefix never reaches past the end of the
/// stream.
pub proof fn lemma_clean_len_bounds(s: Seq<u8>)
    ensures
        0 <= clean_len(s) <= s.len(),
    decreases s.len(),
{
    if s.len() == 0 {
    } else if is_garbage(s[0]) {
    } else {
        lemma_clean_len_bounds(s.skip(1));
    }
}

/// The hex encoding of a byte stream is twice as long, consists of hex
/// digits only, and pairs back up to the original bytes.
pub proof fn lemma_encoding_decodes(b: Seq<u8>)
    ensures
        hex_encoding(b).len() == 2 * b.len(),
        garbage_free(hex_encoding(b)),
        hex_digits(hex_encoding(b)) == hex_encoding(b),
        pair_up(hex_encoding(b)) == b,
    decreases b.len(),
{
    if b.len() == 0 {
        assert(b =~= Seq::<u8>::empty());
        assert(hex_encoding(b) =~= Seq::<u8>::empty());
    } else {
        let h = hex_upper_char(b[0] / 16);
        let l = hex_upper_char(b[0] % 16);
        let rest = hex_encoding(b.skip(1));
        let e = hex_encoding(b);
        lemma_encoding_decodes(b.skip(1));
        assert(e == seq![h, l] + rest);
        assert(is_hex_digit(h));
        assert(is_hex_digit(l));
        assert(e[0] == h);
        assert(e[1] == l);
        assert(e.skip(1) =~= seq![l] + rest);
        assert(e.skip(2) =~= rest);
        // No character of the encoding is garbage.
        assert forall|i: int| 0 <= i < e.len() implies !is_garbage(e[i]) by {
            if i >= 2 {
                assert(e[i] == rest[i - 2]);
                assert(!is_garbage(rest[i - 2]));
            }
        }
        // The digit filter keeps the encoding whole.
        assert(hex_digits(e) == seq![h] + hex_digits(seq![l] + rest));
        assert((seq![l] + rest)[0] == l);
        assert((seq![l] + rest).skip(1) =~= rest);
        assert(hex_digits(seq![l] + rest) == seq![l] + hex_digits(rest));
        assert(hex_digits(e) =~= e);
        // Pairing the first two characters restores the first byte.
        assert(hex_digit_value(h) == b[0] / 16);
        assert(hex_digit_value(l) == b[0] % 16);
        assert(byte_of_pair(h, l) == b[0]);
        assert(pair_up(e) == seq![byte_of_pair(e[0], e[1])] + pair_up(rest));
        assert(pair_up(e) =~= b);
    }
}

/// Removing whitespace changes neither a stream's hex digits nor whether
/// it is garbage-free.
pub proof fn lemma_digits_without_whitespace(s: Seq<u8>)
    ensures
        hex_digits(without_whitespace(s)) == hex_digits(s),
        garbage_free(without_whitespace(s)) <==> garbage_free(s),
    decreases s.len(),
{
    if s.len() == 0 {
    } else {
        lemma_digits_without_whitespace(s.skip(1));
        let w = without_whitespace(s);
        let w1 = without_whitespace(s.skip(1));
        assert(forall|j: int| 0 <= j < s.skip(1).len() ==> s.skip(1)[j] == s[j + 1]);
        if is_whitespace_byte(s[0]) {
            assert(w == w1);
            assert(garbage_free(s.skip(1)) ==> garbage_free(s)) by {
                if garbage_free(s.skip(1)) {
                    assert forall|i: int| 0 <= i < s.len() implies !is_garbage(s[i]) by {
                        if i >= 1 {
                            assert(!is_garbage(s.skip(1)[i - 1]));
                        }
                    }
                }
            }
        } else {
            assert(w == seq![s[0]] + w1);
            assert(w[0] == s[0]);
            assert(w.skip(1) =~= w1);
            if is_hex_digit(s[0]) {
                assert(hex_digits(w) == seq![s[0]] + hex_digits(w1));
            } else {
                assert(hex_digits(w) == hex_digits(w1));
            }
            assert(garbage_free(w) <==> garbage_free(s)) by {
                if garbage_free(w) {
                    assert forall|i: int| 0 <= i < s.len() implies !is_garbage(s[i]) by {
                        if i == 0 {
                            assert(!is_garbage(w[0]));
                        } else {
                            assert(!is_garbage(s.skip(1)[i - 1]));
                        }
                    }
                }
                if garbage_free(s) {
                    assert(garbage_free(s.skip(1))) by {
                        assert forall|i: int| 0 <= i < s.skip(1).len() implies !is_garbage(
                            s.skip(1)[i],
                        ) by {
                            assert(!is_garbage(s[i + 1]));
                        }
                    }
                    assert forall|i: int| 0 <= i < w.len() implies !is_garbage(w[i]) by {
                        if i >= 1 {
                            assert(!is_garbage(w1[i - 1]));
                        }
                    }
                }
            }
        }
    }
}

/// The hex digits a strict decode consumes, those before the first garbage
/// byte, are the same with or without the stream's whitespace.
pub proof fn lemma_clean_digits_without_whitespace(s: Seq<u8>)
    ensures
        hex_digits(without_whitespace(s).take(clean_len(without_whitespace(s)))) == hex_digits(
            s.take(clean_len(s)),
        ),
    decreases s.len(),
{
    if s.len() == 0 {
        assert(s.take(clean_len(s)) =~= Seq::<u8>::empty());
        assert(without_whitespace(s).take(clean_len(without_whitespace(s)))
            =~= Seq::<u8>::empty());
    } else {
        let w = without_whitespace(s);
        let w1 = without_whitespace(s.skip(1));
        lemma_clean_digits_without_whitespace(s.skip(1));
        lemma_clean_len_bounds(s.skip(1));
        lemma_clean_len_bounds(w1);
        if is_garbage(s[0]) {
            assert(clean_len(s) == 0);
            assert(s.take(0) =~= Seq::<u8>::empty());
            assert(w == seq![s[0]] + w1);
            assert(w[0] == s[0]);
            assert(clean_len(w) == 0);
            assert(w.take(0) =~= Seq::<u8>::empty());
        } else if is_whitespace_byte(s[0]) {
            assert(w == w1);
            assert(clean_len(s) == 1 + clean_len(s.skip(1)));
            let t = s.take(clean_len(s));
            assert(t[0] == s[0]);
            assert(!is_hex_digit(t[0]));
            assert(hex_digits(t) == hex_digits(t.skip(1)));
            assert(t.skip(1) =~= s.skip(1).take(clean_len(s.skip(1))));
        } else {
            assert(w == seq![s[0]] + w1);
            assert(w[0] == s[0]);
            assert(w.skip(1) =~= w1);
            assert(clean_len(s) == 1 + clean_len(s.skip(1)));
            assert(clean_len(w) == 1 + clean_len(w1));
            let t = s.take(clean_len(s));
            let u = w.take(clean_len(w));
            assert(t[0] == s[0]);
            assert(u[0] == s[0]);
            assert(t.skip(1) =~= s.skip(1).take(clean_len(s.skip(1))));
            assert(u.skip(1) =~= w1.take(clean_len(w1)));
            assert(hex_digits(t) == (if is_hex_digit(s[0]) {
                seq![s[0]] + hex_digits(t.skip(1))
            } else {
                hex_digits(t.skip(1))
            }));
            assert(hex_digits(u) == (if is_hex_digit(s[0]) {
                seq![s[0]] + hex_digits(u.skip(1))
            } else {
                hex_digits(u.skip(1))
            }));
        }
    }
}

} // verus!
