//! Text helpers, stated over sequences of characters.

use vstd::prelude::*;
use vstd::utf8::*;

verus! {

/// `String::push` appends one character.
pub assume_specification[ String::push ](s: &mut String, c: char)
    ensures
        final(s)@ == old(s)@.push(c),
;

/// `char::is_whitespace` tells whether a character has the Unicode property
/// `White_Space`, which the listed code points have and no others.
pub assume_specification[ char::is_whitespace ](c: char) -> (r: bool)
    ensures
        r == is_white(c),
;

/// What bytes read as when parts that are not UTF-8 are replaced by U+FFFD.
pub uninterp spec fn lossy_text(bytes: Seq<u8>) -> Seq<char>;

/// `String::from_utf8_lossy` depends on the bytes alone, and gives the very text where
/// they are valid UTF-8. How many replacement characters stand for a part that is not
/// valid is not stated.
#[verifier::external_body]
fn read_lossy(bytes: &[u8]) -> (r: String)
    ensures
        r@ == lossy_text(bytes@),
        valid_utf8(bytes@) ==> r@ == decode_utf8(bytes@),
{
    String::from_utf8_lossy(bytes).into_owned()
}

/// What bytes read as: the text whose UTF-8 form they are, or else the text in which the
/// parts that are not UTF-8 are replaced.
pub open spec fn reads_as(bytes: Seq<u8>) -> Seq<char> {
    if valid_utf8(bytes) {
        decode_utf8(bytes)
    } else {
        lossy_text(bytes)
    }
}

/// What bytes read as.
pub fn reading(bytes: &[u8]) -> (r: String)
    ensures
        r@ == reads_as(bytes@),
{
    read_lossy(bytes)
}

/// The UTF-8 form of a text reads as that text.
pub proof fn texts_read_as_themselves(s: Seq<char>)
    ensures
        reads_as(encode_utf8(s)) == s,
{
    encode_utf8_valid_utf8(s);
    encode_utf8_decode_utf8(s);
}

/// Bytes that are no UTF-8 read as what the replacement of their faulty parts gives.
pub proof fn faulty_bytes_are_mended(bytes: Seq<u8>)
    ensures
        valid_utf8(bytes) ==> encode_utf8(reads_as(bytes)) == bytes,
        !valid_utf8(bytes) ==> reads_as(bytes) == lossy_text(bytes),
{
    if valid_utf8(bytes) {
        decode_utf8_encode_utf8(bytes);
    }
}

/// The code points with the Unicode property `White_Space`.
pub open spec fn is_white(c: char) -> bool {
    let n = c as u32;
    ||| 0x9 <= n <= 0xd
    ||| n == 0x20
    ||| n == 0x85
    ||| n == 0xa0
    ||| n == 0x1680
    ||| 0x2000 <= n <= 0x200a
    ||| n == 0x2028
    ||| n == 0x2029
    ||| n == 0x202f
    ||| n == 0x205f
    ||| n == 0x3000
}

/// `s` without the characters at its start that satisfy `p`.
pub open spec fn drop_front(s: Seq<char>, p: spec_fn(char) -> bool) -> Seq<char>
    decreases s.len(),
{
    if s.len() > 0 && p(s[0]) {
        drop_front(s.skip(1), p)
    } else {
        s
    }
}

/// `s` without the characters at its end that satisfy `p`.
pub open spec fn drop_back(s: Seq<char>, p: spec_fn(char) -> bool) -> Seq<char>
    decreases s.len(),
{
    if s.len() > 0 && p(s.last()) {
        drop_back(s.drop_last(), p)
    } else {
        s
    }
}

/// `s` without white space at either end.
pub open spec fn trim(s: Seq<char>) -> Seq<char> {
    drop_back(drop_front(s, |c: char| is_white(c)), |c: char| is_white(c))
}

/// The pieces of `s` between its separators: one more than there are separators.
pub open spec fn pieces(s: Seq<char>, sep: spec_fn(char) -> bool) -> Seq<Seq<char>>
    decreases s.len(),
{
    if s.len() == 0 {
        seq![Seq::<char>::empty()]
    } else {
        let before = pieces(s.drop_last(), sep);
        if sep(s.last()) {
            before.push(Seq::<char>::empty())
        } else {
            before.drop_last().push(before.last().push(s.last()))
        }
    }
}

/// The texts that a vector of strings holds.
pub open spec fn texts(v: Seq<String>) -> Seq<Seq<char>> {
    v.map_values(|s: String| s@)
}

/// What stands after the last separator is the last piece.
proof fn lemma_last_piece(s: Seq<char>, sep: spec_fn(char) -> bool, a: int)
    requires
        0 <= a <= s.len(),
        a == 0 || sep(s[a - 1]),
        forall|k: int| a <= k < s.len() ==> !sep(#[trigger] s[k]),
    ensures
        pieces(s, sep).len() > 0,
        pieces(s, sep).last() == s.subrange(a, s.len() as int),
    decreases s.len(),
{
    if s.len() == 0 {
        assert(s.subrange(0, 0) =~= Seq::<char>::empty());
    } else if a == s.len() {
        assert(s.subrange(a, a) =~= Seq::<char>::empty());
    } else {
        lemma_last_piece(s.drop_last(), sep, a);
        assert(s.drop_last().subrange(a, s.len() - 1).push(s.last()) =~= s.subrange(
            a,
            s.len() as int,
        ));
    }
}

/// What stands before a separator, after the one before it, is a piece, and not the last.
proof fn lemma_inner_piece(s: Seq<char>, sep: spec_fn(char) -> bool, a: int, b: int)
    requires
        0 <= a <= b < s.len(),
        a == 0 || sep(s[a - 1]),
        forall|k: int| a <= k < b ==> !sep(#[trigger] s[k]),
        sep(s[b]),
    ensures
        exists|j: int|
            0 <= j < pieces(s, sep).len() - 1 && #[trigger] pieces(s, sep)[j] == s.subrange(a, b),
    decreases s.len(),
{
    let t = s.drop_last();
    let before = pieces(t, sep);
    assert(s.subrange(a, b) =~= t.subrange(a, b));
    if b == s.len() - 1 {
        lemma_last_piece(t, sep, a);
        assert(pieces(s, sep)[before.len() - 1] == s.subrange(a, b));
    } else {
        lemma_inner_piece(t, sep, a, b);
        let j = choose|j: int|
            0 <= j < before.len() - 1 && #[trigger] before[j] == t.subrange(a, b);
        assert(pieces(s, sep)[j] == before[j]);
    }
}

/// What stands between two separators, or between one and an end, is a piece.
pub proof fn lemma_piece(s: Seq<char>, sep: spec_fn(char) -> bool, a: int, b: int)
    requires
        0 <= a <= b <= s.len(),
        a == 0 || sep(s[a - 1]),
        forall|k: int| a <= k < b ==> !sep(#[trigger] s[k]),
        b == s.len() || sep(s[b]),
    ensures
        pieces(s, sep).contains(s.subrange(a, b)),
{
    if b == s.len() {
        lemma_last_piece(s, sep, a);
        assert(pieces(s, sep)[pieces(s, sep).len() - 1] == s.subrange(a, b));
    } else {
        lemma_inner_piece(s, sep, a, b);
    }
}

/// What stands from one place of a text up to another.
pub open spec fn stretch(s: Seq<char>, a: int, b: int) -> Seq<char> {
    s.subrange(a, b)
}

/// A text without separators is its own only piece.
pub proof fn unbroken_text_is_one_piece(s: Seq<char>, sep: spec_fn(char) -> bool)
    requires
        forall|k: int| 0 <= k < s.len() ==> !sep(#[trigger] s[k]),
    ensures
        pieces(s, sep) == seq![s],
    decreases s.len(),
{
    if s.len() == 0 {
        assert(s =~= Seq::<char>::empty());
    } else {
        let front = s.drop_last();
        assert forall|k: int| 0 <= k < front.len() implies !sep(#[trigger] front[k]) by {
            assert(front[k] == s[k]);
        }
        unbroken_text_is_one_piece(front, sep);
        assert(front.push(s.last()) =~= s);
        assert(pieces(s, sep) =~= seq![s]);
    }
}

/// A separator parts a text: its pieces are those of what stands before it and those of
/// what stands after it.
pub proof fn separators_part_texts(
    a: Seq<char>,
    c: char,
    b: Seq<char>,
    sep: spec_fn(char) -> bool,
)
    requires
        sep(c),
    ensures
        pieces(a.push(c) + b, sep) == pieces(a, sep) + pieces(b, sep),
        pieces(b, sep).len() > 0,
    decreases b.len(),
{
    let s = a.push(c) + b;
    if b.len() == 0 {
        assert(s =~= a.push(c));
        assert(s.drop_last() =~= a);
        assert(b =~= Seq::<char>::empty());
        assert(pieces(s, sep) =~= pieces(a, sep) + pieces(b, sep));
    } else {
        separators_part_texts(a, c, b.drop_last(), sep);
        assert(s.drop_last() =~= a.push(c) + b.drop_last());
        assert(pieces(s, sep) =~= pieces(a, sep) + pieces(b, sep));
    }
}

/// The pieces of a text are what stands between its separators: one ends where the next
/// separator stands, or where the text ends, and none holds a separator.
pub proof fn pieces_are_runs(s: Seq<char>, sep: spec_fn(char) -> bool, i: int)
    requires
        0 <= i < pieces(s, sep).len(),
    ensures
        exists|a: int, b: int|
            {
                &&& #[trigger] stretch(s, a, b) == pieces(s, sep)[i]
                &&& 0 <= a <= b <= s.len()
                &&& a == 0 || sep(s[a - 1])
                &&& b == s.len() || sep(s[b])
                &&& forall|k: int| a <= k < b ==> !sep(#[trigger] s[k])
            },
    decreases s.len(),
{
    if exists|j: int| 0 <= j < s.len() && sep(#[trigger] s[j]) {
        let j = choose|j: int| 0 <= j < s.len() && sep(#[trigger] s[j]);
        let left = s.take(j);
        let right = s.skip(j + 1);
        assert(s =~= left.push(s[j]) + right);
        separators_part_texts(left, s[j], right, sep);
        let n = pieces(left, sep).len() as int;
        if i < n {
            pieces_are_runs(left, sep, i);
            let (a, b) = choose|a: int, b: int|
                {
                    &&& #[trigger] stretch(left, a, b) == pieces(left, sep)[i]
                    &&& 0 <= a <= b <= left.len()
                    &&& a == 0 || sep(left[a - 1])
                    &&& b == left.len() || sep(left[b])
                    &&& forall|k: int| a <= k < b ==> !sep(#[trigger] left[k])
                };
            assert(stretch(s, a, b) =~= stretch(left, a, b));
            assert forall|k: int| a <= k < b implies !sep(#[trigger] s[k]) by {
                assert(s[k] == left[k]);
            }
        } else {
            pieces_are_runs(right, sep, i - n);
            let (a, b) = choose|a: int, b: int|
                {
                    &&& #[trigger] stretch(right, a, b) == pieces(right, sep)[i - n]
                    &&& 0 <= a <= b <= right.len()
                    &&& a == 0 || sep(right[a - 1])
                    &&& b == right.len() || sep(right[b])
                    &&& forall|k: int| a <= k < b ==> !sep(#[trigger] right[k])
                };
            assert(stretch(s, a + j + 1, b + j + 1) =~= stretch(right, a, b));
            assert forall|k: int| a + j + 1 <= k < b + j + 1 implies !sep(#[trigger] s[k]) by {
                assert(s[k] == right[k - j - 1]);
            }
        }
    } else {
        unbroken_text_is_one_piece(s, sep);
        assert(stretch(s, 0, s.len() as int) =~= s);
    }
}

/// What is dropped at the start of a text is all that satisfies the test there, and
/// nothing behind it.
pub proof fn dropping_at_the_start_stops_in_time(
    lead: Seq<char>,
    rest: Seq<char>,
    p: spec_fn(char) -> bool,
)
    requires
        forall|i: int| 0 <= i < lead.len() ==> p(#[trigger] lead[i]),
        rest.len() > 0 ==> !p(rest[0]),
    ensures
        drop_front(lead + rest, p) == rest,
    decreases lead.len(),
{
    if lead.len() == 0 {
        assert(lead + rest =~= rest);
    } else {
        let fewer = lead.skip(1);
        assert forall|i: int| 0 <= i < fewer.len() implies p(#[trigger] fewer[i]) by {
            assert(fewer[i] == lead[i + 1]);
        }
        dropping_at_the_start_stops_in_time(fewer, rest, p);
        assert((lead + rest).skip(1) =~= fewer + rest);
        assert((lead + rest)[0] == lead[0]);
    }
}

/// What is dropped at the end of a text is all that satisfies the test there, and nothing
/// before it.
pub proof fn dropping_at_the_end_stops_in_time(
    rest: Seq<char>,
    tail: Seq<char>,
    p: spec_fn(char) -> bool,
)
    requires
        forall|i: int| 0 <= i < tail.len() ==> p(#[trigger] tail[i]),
        rest.len() > 0 ==> !p(rest.last()),
    ensures
        drop_back(rest + tail, p) == rest,
    decreases tail.len(),
{
    if tail.len() == 0 {
        assert(rest + tail =~= rest);
    } else {
        let fewer = tail.drop_last();
        assert forall|i: int| 0 <= i < fewer.len() implies p(#[trigger] fewer[i]) by {
            assert(fewer[i] == tail[i]);
        }
        dropping_at_the_end_stops_in_time(rest, fewer, p);
        assert((rest + tail).drop_last() =~= rest + fewer);
        assert((rest + tail).last() == tail.last());
    }
}

/// A text that was trimmed is what stands between the white space at its ends: whatever
/// white space is put around a text that neither starts nor ends with any, trimming gives
/// the text back.
pub proof fn trimming_takes_white_space_only(lead: Seq<char>, s: Seq<char>, tail: Seq<char>)
    requires
        forall|i: int| 0 <= i < lead.len() ==> is_white(#[trigger] lead[i]),
        forall|i: int| 0 <= i < tail.len() ==> is_white(#[trigger] tail[i]),
        s.len() > 0 ==> !is_white(s[0]) && !is_white(s.last()),
    ensures
        trim(lead + s + tail) == s,
{
    let white = |c: char| is_white(c);
    if s.len() > 0 {
        dropping_at_the_start_stops_in_time(lead, s + tail, white);
        assert(lead + s + tail =~= lead + (s + tail));
        dropping_at_the_end_stops_in_time(s, tail, white);
    } else {
        let all = lead + tail;
        assert(lead + s + tail =~= all + s);
        assert(s =~= Seq::<char>::empty());
        dropping_at_the_start_stops_in_time(all, s, white);
    }
}

/// A trimmed text is part of the text, has no white space at its ends, and what was taken
/// off is white space.
pub proof fn trimmed_texts_are_trim(s: Seq<char>) -> (r: (Seq<char>, Seq<char>))
    ensures
        s == r.0 + trim(s) + r.1,
        forall|i: int| 0 <= i < r.0.len() ==> is_white(#[trigger] r.0[i]),
        forall|i: int| 0 <= i < r.1.len() ==> is_white(#[trigger] r.1[i]),
        trim(s).len() > 0 ==> !is_white(trim(s)[0]) && !is_white(trim(s).last()),
{
    let white = |c: char| is_white(c);
    let rest = drop_front(s, white);
    let lead = lemma_front_dropped(s, white);
    let tail = lemma_back_dropped(rest, white);
    assert(s =~= lead + trim(s) + tail);
    if trim(s).len() > 0 {
        assert(trim(s)[0] == rest[0]);
    }
    assert forall|i: int| 0 <= i < lead.len() implies is_white(#[trigger] lead[i]) by {
        assert(white(lead[i]));
    }
    assert forall|i: int| 0 <= i < tail.len() implies is_white(#[trigger] tail[i]) by {
        assert(white(tail[i]));
    }
    (lead, tail)
}

proof fn lemma_front_dropped(s: Seq<char>, p: spec_fn(char) -> bool) -> (lead: Seq<char>)
    ensures
        s == lead + drop_front(s, p),
        forall|i: int| 0 <= i < lead.len() ==> p(#[trigger] lead[i]),
        drop_front(s, p).len() > 0 ==> !p(drop_front(s, p)[0]),
    decreases s.len(),
{
    if s.len() > 0 && p(s[0]) {
        let lead = lemma_front_dropped(s.skip(1), p);
        let more = seq![s[0]] + lead;
        let rest = drop_front(s.skip(1), p);
        assert(s.skip(1) == lead + rest);
        assert forall|i: int| 0 <= i < s.len() implies s[i] == #[trigger] (more + rest)[i] by {
            if i > 0 {
                assert(s[i] == s.skip(1)[i - 1]);
            }
        }
        assert(s =~= more + rest);
        assert forall|i: int| 0 <= i < more.len() implies p(#[trigger] more[i]) by {
            if i > 0 {
                assert(more[i] == lead[i - 1]);
            }
        }
        more
    } else {
        assert(s =~= Seq::<char>::empty() + s);
        Seq::empty()
    }
}

proof fn lemma_back_dropped(s: Seq<char>, p: spec_fn(char) -> bool) -> (tail: Seq<char>)
    ensures
        s == drop_back(s, p) + tail,
        forall|i: int| 0 <= i < tail.len() ==> p(#[trigger] tail[i]),
        drop_back(s, p).len() > 0 ==> !p(drop_back(s, p).last()),
    decreases s.len(),
{
    if s.len() > 0 && p(s.last()) {
        let tail = lemma_back_dropped(s.drop_last(), p);
        let more = tail.push(s.last());
        let rest = drop_back(s.drop_last(), p);
        assert(s.drop_last() == rest + tail);
        assert forall|i: int| 0 <= i < s.len() implies s[i] == #[trigger] (rest + more)[i] by {
            if i < s.len() - 1 {
                assert(s[i] == s.drop_last()[i]);
            }
        }
        assert(s =~= rest + more);
        more
    } else {
        assert(s =~= s + Seq::<char>::empty());
        Seq::empty()
    }
}

/// A text that does not start with a separator has a first piece that is not empty.
pub proof fn lemma_first_piece(s: Seq<char>, sep: spec_fn(char) -> bool)
    requires
        s.len() > 0,
        !sep(s[0]),
    ensures
        pieces(s, sep).len() > 0,
        pieces(s, sep)[0].len() > 0,
    decreases s.len(),
{
    if s.len() == 1 {
        assert(s.drop_last() =~= Seq::<char>::empty());
        reveal_with_fuel(pieces, 2);
    } else {
        lemma_first_piece(s.drop_last(), sep);
    }
}

/// A separator in front of a text adds an empty piece in front of its pieces.
pub proof fn lemma_leading_separator(c: char, s: Seq<char>, sep: spec_fn(char) -> bool)
    requires
        sep(c),
    ensures
        pieces(seq![c] + s, sep) == seq![Seq::<char>::empty()] + pieces(s, sep),
        pieces(s, sep).len() > 0,
    decreases s.len(),
{
    let t = seq![c] + s;
    if s.len() == 0 {
        assert(t.drop_last() =~= Seq::<char>::empty());
        reveal_with_fuel(pieces, 2);
        assert(pieces(t, sep) =~= seq![Seq::<char>::empty()] + pieces(s, sep));
    } else {
        lemma_leading_separator(c, s.drop_last(), sep);
        assert(t.drop_last() =~= seq![c] + s.drop_last());
        assert(t.last() == s.last());
        assert(pieces(t, sep) =~= seq![Seq::<char>::empty()] + pieces(s, sep));
    }
}

/// The UTF-8 form of two texts one after the other.
pub proof fn lemma_encode_concat(a: Seq<char>, b: Seq<char>)
    ensures
        encode_utf8(a + b) == encode_utf8(a) + encode_utf8(b),
    decreases a.len(),
{
    if a.len() == 0 {
        assert(a + b =~= b);
        assert(encode_utf8(a) + encode_utf8(b) =~= encode_utf8(b));
    } else {
        lemma_encode_concat(a.drop_first(), b);
        assert((a + b).drop_first() =~= a.drop_first() + b);
        assert((a + b)[0] == a[0]);
        assert(encode_utf8(a + b) =~= encode_utf8(a) + encode_utf8(b));
    }
}

/// The number of a character fits in thirty-two bits.
proof fn lemma_code(c: char)
    ensures
        c as u32 as int == c as int,
{
}

/// The form of a character of the ASCII range is one byte, and a byte of that range is
/// the form of a character.
pub proof fn lemma_ascii_at(s: Seq<char>, i: int)
    requires
        0 <= i < encode_utf8(s).len(),
        encode_utf8(s)[i] < 128,
    ensures
        exists|k: int|
            0 <= k < s.len() && encode_utf8(#[trigger] s.take(k)).len() == i && s[k] as int
                == encode_utf8(s)[i] as int,
    decreases s.len(),
{
    let bytes = encode_utf8(s);
    encode_utf8_first_scalar(s);
    let n = encode_scalar(s[0] as u32).len() as int;
    if i < n {
        let b = bytes[0];
        assert(i == 0);
        lemma_code(s[0]);
        assert(b & 0x7f == b) by (bit_vector)
            requires
                b <= 0x7f,
        ;
        assert(s.take(0) =~= Seq::<char>::empty());
        assert(encode_utf8(s.take(0)).len() == 0);
    } else {
        let t = s.drop_first();
        assert(bytes[i] == encode_utf8(t)[i - n]);
        lemma_ascii_at(t, i - n);
        let k = choose|k: int|
            0 <= k < t.len() && encode_utf8(#[trigger] t.take(k)).len() == i - n && t[k] as int
                == encode_utf8(t)[i - n] as int;
        assert(s.take(k + 1).drop_first() =~= t.take(k));
        assert(s.take(k + 1)[0] == s[0]);
        assert(encode_utf8(s.take(k + 1)).len() == n + encode_utf8(t.take(k)).len());
        assert(s[k + 1] == t[k]);
    }
}

/// Longer parts of a text have longer UTF-8 forms.
pub proof fn lemma_encode_grows(s: Seq<char>, a: int, b: int)
    requires
        0 <= a < b <= s.len(),
    ensures
        encode_utf8(s.take(a)).len() < encode_utf8(s.take(b)).len(),
        b == a + 1 && (s[a] as u32) < 128 ==> encode_utf8(s.take(b)).len() == encode_utf8(
            s.take(a),
        ).len() + 1,
{
    let mid = s.subrange(a, b);
    assert(s.take(b) =~= s.take(a) + mid);
    lemma_encode_concat(s.take(a), mid);
    assert(encode_utf8(mid) == encode_scalar(mid[0] as u32) + encode_utf8(mid.drop_first()));
    assert(encode_scalar(mid[0] as u32).len() >= 1);
    if b == a + 1 {
        assert(mid.drop_first() =~= Seq::<char>::empty());
        assert(encode_utf8(mid.drop_first()).len() == 0);
    }
}

/// Two texts are the same exactly when their UTF-8 forms are.
pub proof fn lemma_same_bytes(a: Seq<char>, b: Seq<char>)
    ensures
        (a == b) == (encode_utf8(a) == encode_utf8(b)),
{
    vstd::utf8::encode_utf8_decode_utf8(a);
    vstd::utf8::encode_utf8_decode_utf8(b);
}

/// Whether two byte strings are equal.
pub fn same_bytes(a: &[u8], b: &[u8]) -> (r: bool)
    ensures
        r == (a@ == b@),
{
    if a.len() != b.len() {
        return false;
    }
    let mut i: usize = 0;
    while i < a.len()
        invariant
            i <= a.len(),
            a.len() == b.len(),
            forall|j: int| 0 <= j < i ==> a@[j] == b@[j],
        decreases a.len() - i,
    {
        if a[i] != b[i] {
            return false;
        }
        i = i + 1;
    }
    assert(a@ =~= b@);
    true
}

/// Whether two texts are equal.
pub fn same(a: &str, b: &str) -> (r: bool)
    ensures
        r == (a@ == b@),
{
    proof {
        lemma_same_bytes(a@, b@);
    }
    same_bytes(a.as_bytes(), b.as_bytes())
}

/// The number of bytes in the UTF-8 form of a text.
pub fn byte_len(s: &str) -> (n: usize)
    ensures
        n == encode_utf8(s@).len(),
{
    s.as_bytes().len()
}

/// The characters of a text.
pub fn chars_of(s: &str) -> (v: Vec<char>)
    ensures
        v@ == s@,
{
    let mut v: Vec<char> = Vec::new();
    for c in it: s.chars()
        invariant
            v@ == it.seq().take(it.index()),
            it.seq() == s@,
    {
        v.push(c);
    }
    v
}

/// The text of characters `from` to `to` of `v`.
pub fn text_of(v: &Vec<char>, from: usize, to: usize) -> (s: String)
    requires
        from <= to <= v@.len(),
    ensures
        s@ == v@.subrange(from as int, to as int),
{
    let mut s = String::new();
    let mut i: usize = from;
    while i < to
        invariant
            from <= i <= to <= v@.len(),
            s@ == v@.subrange(from as int, i as int),
        decreases to - i,
    {
        s.push(v[i]);
        i = i + 1;
        assert(v@.subrange(from as int, i as int) =~= v@.subrange(from as int, i - 1).push(v@[i - 1]));
    }
    s
}

/// `text` without white space at either end.
pub fn trimmed(text: &str) -> (r: String)
    ensures
        r@ == trim(text@),
{
    let v = chars_of(text);
    let ghost white = |c: char| is_white(c);
    let mut from: usize = 0;
    assert(v@.skip(0) =~= v@);
    while from < v.len() && v[from].is_whitespace()
        invariant
            from <= v@.len(),
            white == (|c: char| is_white(c)),
            drop_front(v@, white) == drop_front(v@.skip(from as int), white),
        decreases v@.len() - from,
    {
        assert(v@.skip(from as int).skip(1) =~= v@.skip(from + 1));
        assert(white(v@.skip(from as int)[0]));
        from = from + 1;
    }
    let mut to: usize = v.len();
    assert(v@.skip(from as int) =~= v@.subrange(from as int, to as int));
    assert(drop_front(v@, white) == v@.subrange(from as int, to as int));
    while from < to && v[to - 1].is_whitespace()
        invariant
            from <= to <= v@.len(),
            white == (|c: char| is_white(c)),
            drop_back(drop_front(v@, white), white) == drop_back(
                v@.subrange(from as int, to as int),
                white,
            ),
        decreases to - from,
    {
        let ghost cur = v@.subrange(from as int, to as int);
        assert(cur.drop_last() =~= v@.subrange(from as int, to - 1));
        assert(white(cur.last()));
        to = to - 1;
    }
    text_of(&v, from, to)
}

/// `text` without the copies of `c` at its start.
pub fn without_leading(text: &str, c: char) -> (r: String)
    ensures
        r@ == drop_front(text@, |x: char| x == c),
{
    let v = chars_of(text);
    let ghost p = |x: char| x == c;
    let mut from: usize = 0;
    assert(v@.skip(0) =~= v@);
    while from < v.len() && v[from] == c
        invariant
            from <= v@.len(),
            p == (|x: char| x == c),
            drop_front(v@, p) == drop_front(v@.skip(from as int), p),
        decreases v@.len() - from,
    {
        assert(v@.skip(from as int).skip(1) =~= v@.skip(from + 1));
        from = from + 1;
    }
    assert(v@.skip(from as int) =~= v@.subrange(from as int, v@.len() as int));
    text_of(&v, from, v.len())
}

/// `text` without the copies of `c` at its end.
pub fn without_trailing(text: &str, c: char) -> (r: String)
    ensures
        r@ == drop_back(text@, |x: char| x == c),
{
    let v = chars_of(text);
    let ghost p = |x: char| x == c;
    let mut to: usize = v.len();
    assert(v@.take(to as int) =~= v@);
    while 0 < to && v[to - 1] == c
        invariant
            to <= v@.len(),
            p == (|x: char| x == c),
            drop_back(v@, p) == drop_back(v@.take(to as int), p),
        decreases to,
    {
        assert(v@.take(to as int).drop_last() =~= v@.take(to - 1));
        to = to - 1;
    }
    assert(v@.take(to as int) =~= v@.subrange(0, to as int));
    text_of(&v, 0, to)
}

/// What follows `prefix` in `text`, if `text` starts with it.
pub fn after_prefix(text: &str, prefix: &str) -> (r: Option<String>)
    ensures
        match r {
            Some(rest) => text@ == prefix@ + rest@,
            None => !prefix@.is_prefix_of(text@),
        },
{
    let v = chars_of(text);
    let p = chars_of(prefix);
    if v.len() < p.len() {
        return None;
    }
    let mut i: usize = 0;
    while i < p.len()
        invariant
            i <= p@.len() <= v@.len(),
            forall|j: int| 0 <= j < i ==> v@[j] == p@[j],
            v@ == text@,
            p@ == prefix@,
        decreases p@.len() - i,
    {
        if v[i] != p[i] {
            return None;
        }
        i = i + 1;
    }
    let rest = text_of(&v, p.len(), v.len());
    assert(text@ =~= prefix@ + rest@);
    Some(rest)
}

/// The pieces of `text` between the characters `a` and `b`.
pub fn split(text: &str, a: char, b: char) -> (r: Vec<String>)
    ensures
        texts(r@) == pieces(text@, |c: char| c == a || c == b),
        r@.len() > 0,
{
    let ghost sep = |c: char| c == a || c == b;
    let v = chars_of(text);
    let mut done: Vec<String> = Vec::new();
    let mut cur = String::new();
    let mut i: usize = 0;
    assert(v@.take(0) =~= Seq::<char>::empty());
    assert(texts(done@).push(cur@) =~= seq![Seq::<char>::empty()]);
    while i < v.len()
        invariant
            i <= v@.len(),
            sep == (|c: char| c == a || c == b),
            texts(done@).push(cur@) == pieces(v@.take(i as int), sep),
        decreases v@.len() - i,
    {
        let c = v[i];
        let ghost now = pieces(v@.take(i as int), sep);
        assert(v@.take(i + 1).drop_last() =~= v@.take(i as int));
        assert(v@.take(i + 1).last() == c);
        assert(now.drop_last() =~= texts(done@));
        assert(now.last() == cur@);
        if c == a || c == b {
            done.push(cur);
            cur = String::new();
            assert(texts(done@) =~= now);
        } else {
            cur.push(c);
        }
        i = i + 1;
        assert(texts(done@).push(cur@) =~= pieces(v@.take(i as int), sep));
    }
    assert(v@.take(i as int) =~= v@);
    done.push(cur);
    assert(texts(done@) =~= pieces(text@, sep));
    done
}

/// Whether one of the pieces of `text` between the characters `a` and `b` is `what`.
pub fn has_piece(text: &str, a: char, b: char, what: &str) -> (r: bool)
    ensures
        r == pieces(text@, |c: char| c == a || c == b).contains(what@),
{
    let parts = split(text, a, b);
    let mut i: usize = 0;
    while i < parts.len()
        invariant
            i <= parts@.len(),
            forall|j: int| 0 <= j < i ==> (#[trigger] parts@[j])@ != what@,
            texts(parts@) == pieces(text@, |c: char| c == a || c == b),
        decreases parts@.len() - i,
    {
        if same(parts[i].as_str(), what) {
            assert(texts(parts@)[i as int] == what@);
            return true;
        }
        i = i + 1;
    }
    assert forall|j: int| 0 <= j < texts(parts@).len() implies texts(parts@)[j] != what@ by {
        assert(texts(parts@)[j] == parts@[j]@);
    }
    false
}

/// `text` with every `from` replaced by `to`.
pub fn replaced(text: &str, from: char, to: char) -> (r: String)
    ensures
        r@ == text@.map_values(|c: char| if c == from { to } else { c }),
{
    let ghost f = |c: char| if c == from { to } else { c };
    let mut s = String::new();
    for c in it: text.chars()
        invariant
            it.seq() == text@,
            f == (|c: char| if c == from { to } else { c }),
            s@ =~= text@.take(it.index()).map_values(f),
    {
        if c == from {
            s.push(to);
        } else {
            s.push(c);
        }
        assert(text@.take(it.index() + 1) =~= text@.take(it.index()).push(c));
    }
    assert(text@.take(text@.len() as int) =~= text@);
    s
}

/// The texts `a` and `b` one after the other.
pub fn concat(a: &str, b: &str) -> (r: String)
    ensures
        r@ == a@ + b@,
{
    let mut s = a.to_string();
    s.append(b);
    s
}

} // verus!
