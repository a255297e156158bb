//! Text: comparison, prefixes, cutting and decimal numerals, over the characters of a string.

use vstd::prelude::*;

verus! {

broadcast use vstd::utf8::encode_utf8_decode_utf8;

/// Whether two strings hold the same characters.
pub fn same_text(a: &str, b: &str) -> (same: bool)
    ensures
        same == (a@ == b@),
{
    let left = a.as_bytes();
    let right = b.as_bytes();
    if left.len() != right.len() {
        return false;
    }
    let mut i: usize = 0;
    while i < left.len()
        invariant
            i <= left.len(),
            left.len() == right.len(),
            left@ == vstd::utf8::encode_utf8(a@),
            right@ == vstd::utf8::encode_utf8(b@),
            left@.take(i as int) == right@.take(i as int),
        decreases left.len() - i,
    {
        if left[i] != right[i] {
            assert(left@[i as int] != right@[i as int]);
            return false;
        }
        assert(left@.take(i + 1) =~= left@.take(i as int).push(left@[i as int]));
        assert(right@.take(i + 1) =~= right@.take(i as int).push(right@[i as int]));
        i += 1;
    }
    assert(left@.take(i as int) =~= left@);
    assert(right@.take(i as int) =~= right@);
    assert(vstd::utf8::decode_utf8(vstd::utf8::encode_utf8(a@)) == a@);
    assert(vstd::utf8::decode_utf8(vstd::utf8::encode_utf8(b@)) == b@);
    true
}

/// Whether `part` stands in `whole` at index `at`.
pub open spec fn occurs_at(whole: Seq<char>, part: Seq<char>, at: int) -> bool {
    &&& 0 <= at
    &&& at + part.len() <= whole.len()
    &&& whole.subrange(at, at + part.len()) == part
}

/// Tests whether `part` stands in `whole` at index `at`.
pub fn text_at(whole: &str, part: &str, at: usize) -> (found: bool)
    ensures
        found == occurs_at(whole@, part@, at as int),
{
    let total: usize = whole.unicode_len();
    let width: usize = part.unicode_len();
    if at > total || width > total - at {
        return false;
    }
    same_text(whole.substring_char(at, at + width), part)
}

/// What stands between the separators of a text, one piece more than there are separators.
pub open spec fn pieces(text: Seq<char>, separator: char) -> Seq<Seq<char>>
    decreases text.len(),
{
    if text.len() == 0 {
        seq![Seq::empty()]
    } else {
        let before = pieces(text.drop_last(), separator);
        if text.last() == separator {
            before.push(Seq::empty())
        } else {
            before.drop_last().push(before.last().push(text.last()))
        }
    }
}

/// The characters of each string.
pub open spec fn texts(strings: Seq<String>) -> Seq<Seq<char>> {
    strings.map_values(|s: String| s@)
}

/// Cuts a text at every separator.
pub fn split_text(text: &str, separator: char) -> (parts: Vec<String>)
    ensures
        texts(parts@) == pieces(text@, separator),
        parts@.len() >= 1,
{
    let total: usize = text.unicode_len();
    let mut parts: Vec<String> = Vec::new();
    let mut from: usize = 0;
    let mut i: usize = 0;
    assert(text@.take(0) =~= Seq::<char>::empty());
    assert(texts(parts@).push(text@.subrange(0, 0)) =~= pieces(text@.take(0), separator));
    while i < total
        invariant
            from <= i <= total,
            total == text@.len(),
            texts(parts@).push(text@.subrange(from as int, i as int)) == pieces(
                text@.take(i as int),
                separator,
            ),
        decreases total - i,
    {
        assert(text@.take(i + 1).drop_last() =~= text@.take(i as int));
        assert(pieces(text@.take(i as int), separator).drop_last() =~= texts(parts@));
        if text.get_char(i) == separator {
            let ghost before = texts(parts@);
            parts.push(text.substring_char(from, i).to_owned());
            from = i + 1;
            assert(texts(parts@) =~= before.push(parts@.last()@));
            assert(text@.subrange(from as int, from as int) =~= Seq::<char>::empty());
        } else {
            assert(text@.subrange(from as int, i + 1) =~= text@.subrange(from as int, i as int).push(
                text@[i as int],
            ));
        }
        i += 1;
    }
    assert(text@.take(total as int) =~= text@);
    let ghost before = texts(parts@);
    parts.push(text.substring_char(from, total).to_owned());
    assert(texts(parts@) =~= before.push(parts@.last()@));
    parts
}

/// `text` without any repetition of `prefix` at its front.
pub open spec fn without_leading(text: Seq<char>, prefix: Seq<char>) -> Seq<char>
    decreases text.len(),
{
    if prefix.len() > 0 && occurs_at(text, prefix, 0) {
        without_leading(text.skip(prefix.len() as int), prefix)
    } else {
        text
    }
}

/// Drops every repetition of `prefix` at the front of `text`.
pub fn trim_leading<'a>(text: &'a str, prefix: &str) -> (rest: &'a str)
    ensures
        rest@ == without_leading(text@, prefix@),
{
    let total: usize = text.unicode_len();
    let width: usize = prefix.unicode_len();
    let mut rest: &'a str = text;
    let mut left: usize = total;
    if width == 0 {
        return text;
    }
    while text_at(rest, prefix, 0)
        invariant
            width == prefix@.len(),
            width > 0,
            left == rest@.len(),
            without_leading(rest@, prefix@) == without_leading(text@, prefix@),
        decreases left,
    {
        assert(rest@.skip(width as int) =~= rest@.subrange(width as int, left as int));
        rest = rest.substring_char(width, left);
        left = left - width;
    }
    rest
}

/// The character of a decimal digit.
pub open spec fn digit_char(digit: nat) -> char {
    (('0' as u8) + digit) as char
}

/// The decimal numeral of a number, without leading zeros.
pub open spec fn numeral(number: nat) -> Seq<char>
    decreases number,
{
    if number < 10 {
        seq![digit_char(number)]
    } else {
        numeral(number / 10).push(digit_char(number % 10))
    }
}

fn digit_text(digit: u64) -> (text: &'static str)
    requires
        digit < 10,
    ensures
        text@ == seq![digit_char(digit as nat)],
{
    proof {
        reveal_strlit("0");
        reveal_strlit("1");
        reveal_strlit("2");
        reveal_strlit("3");
        reveal_strlit("4");
        reveal_strlit("5");
        reveal_strlit("6");
        reveal_strlit("7");
        reveal_strlit("8");
        reveal_strlit("9");
    }
    let text: &'static str = match digit {
        0 => "0",
        1 => "1",
        2 => "2",
        3 => "3",
        4 => "4",
        5 => "5",
        6 => "6",
        7 => "7",
        8 => "8",
        _ => "9",
    };
    assert(text@ =~= seq![digit_char(digit as nat)]);
    text
}

/// Writes a number as a decimal numeral.
pub fn decimal(number: u64) -> (text: String)
    ensures
        text@ == numeral(number as nat),
    decreases number,
{
    if number < 10 {
        digit_text(number).to_owned()
    } else {
        let mut text: String = decimal(number / 10);
        let ghost head = text@;
        text.append(digit_text(number % 10));
        assert(text@ =~= head.push(digit_char(number as nat % 10)));
        text
    }
}

/// Appends a decimal numeral to a string.
pub fn append_decimal(text: &mut String, number: u64)
    ensures
        final(text)@ == old(text)@ + numeral(number as nat),
{
    let digits: String = decimal(number);
    text.append(digits.as_str());
}

/// Whether all characters of a text are ASCII.
pub open spec fn is_plain(text: Seq<char>) -> bool {
    forall|i: int| 0 <= i < text.len() ==> (#[trigger] text[i]) as u32 <= 127
}

/// The capital of a plain letter; every other plain character is its own.
pub open spec fn capital(c: char) -> char {
    if 'a' as u32 <= c as u32 <= 'z' as u32 {
        (c as u32 - 32) as char
    } else {
        c
    }
}

/// A text with every plain letter made a capital.
pub open spec fn capitals(text: Seq<char>) -> Seq<char> {
    Seq::new(text.len(), |i: int| capital(text[i]))
}

/// The text that `str::to_uppercase` gives for a string that is not all ASCII.
pub uninterp spec fn unicode_uppercase(text: Seq<char>) -> Seq<char>;

/// A text in capitals.
pub open spec fn uppercase(text: Seq<char>) -> Seq<char> {
    if is_plain(text) {
        capitals(text)
    } else {
        unicode_uppercase(text)
    }
}

/// Calls `str::to_uppercase`, whose result depends on the characters of the string alone. Of ASCII
/// text it changes the 26 small letters into their capitals and nothing else. What becomes of other
/// text is the Unicode case mapping and is left unsaid.
#[verifier::external_body]
pub(crate) fn to_upper(text: &str) -> (upper: String)
    ensures
        upper@ == if is_plain(text@) {
            capitals(text@)
        } else {
            unicode_uppercase(text@)
        },
{
    text.to_uppercase()
}

/// Whether a character is white space: one with the Unicode property `White_Space`.
pub open spec fn is_space(c: char) -> bool {
    let n = c as u32;
    ||| 0x9 <= n <= 0xd
    ||| n == 0x20 || n == 0x85 || n == 0xa0 || n == 0x1680
    ||| 0x2000 <= n <= 0x200a
    ||| n == 0x2028 || n == 0x2029 || n == 0x202f || n == 0x205f || n == 0x3000
}

/// A text without the white space that it starts with.
pub open spec fn from_first_mark(text: Seq<char>) -> Seq<char>
    decreases text.len(),
{
    if text.len() > 0 && is_space(text[0]) {
        from_first_mark(text.skip(1))
    } else {
        text
    }
}

/// A text without the white space that it ends in.
pub open spec fn to_last_mark(text: Seq<char>) -> Seq<char>
    decreases text.len(),
{
    if text.len() > 0 && is_space(text.last()) {
        to_last_mark(text.drop_last())
    } else {
        text
    }
}

/// A text without the white space at its two ends.
pub open spec fn trimmed(text: Seq<char>) -> Seq<char> {
    to_last_mark(from_first_mark(text))
}

/// Calls `str::trim`, which gives the string without the Unicode white space at its two ends.
#[verifier::external_body]
pub(crate) fn trim_space(text: &str) -> (rest: &str)
    ensures
        rest@ == trimmed(text@),
{
    text.trim()
}

/// Texts that are the same but for the case of plain letters are the same in capitals, and a text in
/// capitals does not change any more.
pub proof fn law_case_makes_no_difference(one: Seq<char>, other: Seq<char>)
    requires
        is_plain(one),
        is_plain(other),
        capitals(one) == capitals(other),
    ensures
        uppercase(one) == uppercase(other),
        uppercase(uppercase(one)) == uppercase(one),
{
    let upper = capitals(one);
    assert forall|i: int| 0 <= i < upper.len() implies (#[trigger] upper[i]) as u32 <= 127
        && capital(upper[i]) == upper[i] by {
        assert(one[i] as u32 <= 127);
    }
    assert(capitals(upper) =~= upper);
}

/// Pieces joined again, with the separator between two of them.
pub open spec fn joined(parts: Seq<Seq<char>>, separator: char) -> Seq<char>
    decreases parts.len(),
{
    if parts.len() == 0 {
        Seq::empty()
    } else if parts.len() == 1 {
        parts[0]
    } else {
        joined(parts.drop_last(), separator).push(separator) + parts.last()
    }
}

/// Cutting a text loses nothing and cuts everywhere: joined again, the pieces are the text, and no
/// piece holds a separator.
pub proof fn law_pieces_rejoin(text: Seq<char>, separator: char)
    ensures
        joined(pieces(text, separator), separator) == text,
        forall|i: int|
            0 <= i < pieces(text, separator).len() ==> !(#[trigger] pieces(
                text,
                separator,
            )[i]).contains(separator),
        pieces(text, separator).len() >= 1,
    decreases text.len(),
{
    let parts = pieces(text, separator);
    if text.len() == 0 {
        assert(parts =~= seq![Seq::<char>::empty()]);
        assert(text =~= Seq::<char>::empty());
    } else {
        let less = text.drop_last();
        let before = pieces(less, separator);
        law_pieces_rejoin(less, separator);
        assert(text =~= less.push(text.last()));
        if text.last() == separator {
            assert(parts.drop_last() =~= before);
            assert(less.push(separator) + Seq::<char>::empty() =~= text);
        } else {
            let last = before.last().push(text.last());
            assert(parts.drop_last() =~= before.drop_last());
            assert(!before.last().contains(separator)) by {
                assert(before.last() == before[before.len() - 1]);
            }
            assert(!last.contains(separator)) by {
                if last.contains(separator) {
                    let k = choose|k: int| 0 <= k < last.len() && last[k] == separator;
                    if k < before.last().len() {
                        assert(before.last()[k] == separator);
                    }
                }
            }
            assert forall|i: int| 0 <= i < parts.len() implies !(#[trigger] parts[i]).contains(
                separator,
            ) by {
                if i < parts.len() - 1 {
                    assert(parts[i] == before[i]);
                }
            }
            if before.len() > 1 {
                let head = joined(before.drop_last(), separator).push(separator);
                assert(head + last =~= (head + before.last()).push(text.last()));
            }
        }
    }
}

/// The number that a decimal numeral stands for.
pub open spec fn numeral_value(digits: Seq<char>) -> nat
    decreases digits.len(),
{
    if digits.len() == 0 {
        0
    } else {
        (10 * numeral_value(digits.drop_last()) + (digits.last() as u32 - 48)) as nat
    }
}

/// A numeral stands for its number, has nothing but digits and no zero in front.
pub proof fn law_numeral_is_read_back(number: nat)
    ensures
        numeral_value(numeral(number)) == number,
        numeral(number).len() > 0,
        forall|i: int|
            0 <= i < numeral(number).len() ==> 48 <= (#[trigger] numeral(number)[i]) as u32 <= 57,
        numeral(number)[0] == '0' ==> number == 0,
    decreases number,
{
    let digits = numeral(number);
    if number < 10 {
        assert(digits.drop_last() =~= Seq::<char>::empty());
        assert(numeral_value(Seq::<char>::empty()) == 0);
        assert(digit_char(number) as u32 == 48 + number);
    } else {
        law_numeral_is_read_back(number / 10);
        assert(digits.drop_last() =~= numeral(number / 10));
        assert(digit_char(number % 10) as u32 == 48 + number % 10);
        assert(digits[0] == numeral(number / 10)[0]);
    }
}

/// Trimming takes white space from the two ends and nothing else: the text is white space, what is
/// left, and white space again, and what is left neither starts nor ends with any.
pub proof fn law_trimming_takes_white_space(text: Seq<char>)
    ensures
        ({
            let rest = trimmed(text);
            &&& rest.len() > 0 ==> !is_space(rest[0]) && !is_space(rest[rest.len() - 1])
            &&& exists|front: Seq<char>, back: Seq<char>|
                {
                    &&& text == #[trigger] (front + rest + back)
                    &&& forall|i: int| 0 <= i < front.len() ==> is_space(#[trigger] front[i])
                    &&& forall|i: int| 0 <= i < back.len() ==> is_space(#[trigger] back[i])
                }
        }),
{
    let middle = from_first_mark(text);
    let rest = trimmed(text);
    lemma_from_first_mark(text);
    lemma_to_last_mark(middle);
    let front = text.take(text.len() - middle.len());
    let back = middle.skip(rest.len() as int);
    assert(text =~= front + rest + back);
}

proof fn lemma_from_first_mark(text: Seq<char>)
    ensures
        ({
            let rest = from_first_mark(text);
            let n = text.len() - rest.len();
            &&& 0 <= n
            &&& rest == text.skip(n)
            &&& forall|i: int| 0 <= i < n ==> is_space(#[trigger] text[i])
            &&& rest.len() > 0 ==> !is_space(rest[0])
        }),
    decreases text.len(),
{
    let rest = from_first_mark(text);
    let n = text.len() - rest.len();
    if text.len() > 0 && is_space(text[0]) {
        lemma_from_first_mark(text.skip(1));
        assert(text.skip(1).skip(n - 1) =~= text.skip(n));
        assert forall|i: int| 0 <= i < n implies is_space(#[trigger] text[i]) by {
            if i > 0 {
                assert(text.skip(1)[i - 1] == text[i]);
            }
        }
    } else {
        assert(text.skip(0) =~= text);
    }
}

proof fn lemma_to_last_mark(text: Seq<char>)
    ensures
        ({
            let rest = to_last_mark(text);
            &&& rest.len() <= text.len()
            &&& rest == text.take(rest.len() as int)
            &&& forall|i: int| rest.len() <= i < text.len() ==> is_space(#[trigger] text[i])
            &&& rest.len() > 0 ==> !is_space(rest[rest.len() - 1])
            &&& rest.len() > 0 ==> rest[0] == text[0]
        }),
    decreases text.len(),
{
    let rest = to_last_mark(text);
    if text.len() > 0 && is_space(text.last()) {
        let less = text.drop_last();
        lemma_to_last_mark(less);
        assert(less.take(rest.len() as int) =~= text.take(rest.len() as int));
        assert forall|i: int| rest.len() <= i < text.len() implies is_space(#[trigger] text[i]) by {
            if i < less.len() {
                assert(less[i] == text[i]);
            }
        }
    } else {
        assert(text.take(text.len() as int) =~= text);
    }
}

/// Dropping a prefix leaves the end of the text, which does not start with the prefix any more.
pub proof fn law_prefix_is_dropped(text: Seq<char>, prefix: Seq<char>)
    requires
        prefix.len() > 0,
    ensures
        ({
            let rest = without_leading(text, prefix);
            &&& !occurs_at(rest, prefix, 0)
            &&& rest.len() <= text.len()
            &&& rest == text.skip(text.len() - rest.len())
            &&& !occurs_at(text, prefix, 0) ==> rest == text
            &&& occurs_at(text, prefix, 0) ==> rest == without_leading(
                text.skip(prefix.len() as int),
                prefix,
            )
        }),
    decreases text.len(),
{
    let rest = without_leading(text, prefix);
    if occurs_at(text, prefix, 0) {
        let less = text.skip(prefix.len() as int);
        law_prefix_is_dropped(less, prefix);
        assert(less.skip(less.len() - rest.len()) =~= text.skip(text.len() - rest.len()));
    } else {
        assert(text.skip(0) =~= text);
    }
}

/// A text is cut at each separator by itself: the pieces of two texts with a separator between them
/// are the pieces of the one and then those of the other. A text without a separator is its own only
/// piece.
pub proof fn law_pieces_compose(front: Seq<char>, back: Seq<char>, separator: char)
    ensures
        pieces(front.push(separator) + back, separator) == pieces(front, separator) + pieces(
            back,
            separator,
        ),
        !front.contains(separator) ==> pieces(front, separator) == seq![front],
    decreases back.len() + front.len(),
{
    let whole = front.push(separator) + back;
    let head = pieces(front, separator);
    let tail = pieces(back, separator);
    if back.len() == 0 {
        assert(back =~= Seq::<char>::empty());
        assert(whole.drop_last() =~= front);
        assert(whole.last() == separator);
        assert(pieces(whole, separator) == head.push(Seq::empty()));
        assert(tail =~= seq![Seq::<char>::empty()]);
        assert(pieces(whole, separator) =~= head + tail);
    } else {
        let less = back.drop_last();
        law_pieces_compose(front, less, separator);
        law_pieces_rejoin(less, separator);
        assert(whole.drop_last() =~= front.push(separator) + less);
        assert(whole.last() == back.last());
        let before = pieces(less, separator);
        assert((head + before).last() == before.last());
        assert((head + before).drop_last() =~= head + before.drop_last());
        assert(pieces(whole, separator) =~= head + tail);
    }
    if !front.contains(separator) {
        if front.len() > 0 {
            let less = front.drop_last();
            assert(!less.contains(separator)) by {
                if less.contains(separator) {
                    let k = choose|k: int| 0 <= k < less.len() && less[k] == separator;
                    assert(front[k] == separator);
                }
            }
            assert(front.last() != separator) by {
                assert(front[front.len() - 1] == front.last());
            }
            law_pieces_compose(less, Seq::empty(), separator);
            assert(less.push(front.last()) =~= front);
            assert(pieces(front, separator) =~= seq![front]);
        } else {
            assert(front =~= Seq::<char>::empty());
            assert(pieces(front, separator) =~= seq![front]);
        }
    }
}

} // verus!
