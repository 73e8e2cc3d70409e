//! Building, comparing and taking apart text.

use vstd::prelude::*;
use vstd::std_specs::iter::IteratorSpec;

use crate::collections::{no_items, push_item};
use crate::order::{rank_text, Rank};

verus! {

/// `String::push` appends one character.
pub assume_specification[ String::push ](s: &mut String, ch: char)
    ensures
        final(s)@ == old(s)@.push(ch),
;

/// What `format!` writes for a text with the placeholder `{:?}`.
pub uninterp spec fn debug_text(text: Seq<char>) -> Seq<char>;

/// Writes a text in quotes, with escapes, as `format!` does for the placeholder `{:?}`: a function
/// of the text alone. Which characters are escaped is left unsaid.
#[verifier::external_body]
pub(crate) fn quoted(text: &str) -> (shown: String)
    ensures
        shown@ == debug_text(text@),
{
    format!("{:?}", text)
}

/// Whether two texts hold the same characters.
pub fn same(left: &str, right: &str) -> (equal: bool)
    ensures
        equal == (left@ == right@),
{
    match rank_text(left, right) {
        Rank::Equal => true,
        Rank::Less => {
            proof {
                crate::order::lemma_seq_irreflexive::<char>(left@);
            }
            false
        },
        Rank::Greater => {
            proof {
                crate::order::lemma_seq_irreflexive::<char>(left@);
            }
            false
        },
    }
}

/// Whether two optional texts are both missing or hold the same characters.
pub fn same_optional(left: &Option<String>, right: &Option<String>) -> (equal: bool)
    ensures
        equal == (left.deep_view() == right.deep_view()),
{
    match (left, right) {
        (None, None) => true,
        (Some(a), Some(b)) => same(a.as_str(), b.as_str()),
        _ => false,
    }
}

/// Whether two lists hold the same texts in the same order.
pub fn same_list(left: &Vec<String>, right: &Vec<String>) -> (equal: bool)
    ensures
        equal == (left.deep_view() == right.deep_view()),
{
    if left.len() != right.len() {
        proof {
            assert(left.deep_view().len() != right.deep_view().len());
        }
        return false;
    }
    let mut index: usize = 0;
    while index < left.len()
        invariant
            left.len() == right.len(),
            index <= left.len(),
            forall|i: int| 0 <= i < index ==> #[trigger] left.deep_view()[i] == right.deep_view()[i],
        decreases left.len() - index,
    {
        proof {
            assert(left.deep_view()[index as int] == left[index as int]@);
            assert(right.deep_view()[index as int] == right[index as int]@);
        }
        if !same(left[index].as_str(), right[index].as_str()) {
            return false;
        }
        index = index + 1;
    }
    proof {
        assert(left.deep_view() =~= right.deep_view());
    }
    true
}

/// Whether a list holds a text.
pub fn list_contains(list: &Vec<String>, text: &str) -> (found: bool)
    ensures
        found == list.deep_view().contains(text@),
{
    let mut index: usize = 0;
    while index < list.len()
        invariant
            index <= list.len(),
            forall|i: int| 0 <= i < index ==> #[trigger] list.deep_view()[i] != text@,
        decreases list.len() - index,
    {
        proof {
            assert(list.deep_view()[index as int] == list[index as int]@);
        }
        if same(list[index].as_str(), text) {
            return true;
        }
        index = index + 1;
    }
    false
}

/// A copy of a list of texts.
pub fn copy_list(list: &Vec<String>) -> (copy: Vec<String>)
    ensures
        copy.deep_view() == list.deep_view(),
{
    let copy = list.clone();
    proof {
        assert(copy.deep_view() =~= list.deep_view());
    }
    copy
}

/// The characters of a text.
pub fn chars_of(text: &str) -> (chars: Vec<char>)
    ensures
        chars@ == text@,
{
    let mut chars: Vec<char> = Vec::new();
    let mut rest = text.chars();
    let ghost mut done: int = 0;
    proof {
        assert(text@.skip(0) =~= text@);
        assert(text@.take(0) =~= Seq::<char>::empty());
    }
    loop
        invariant
            0 <= done <= text@.len(),
            chars@ == text@.take(done),
            rest.remaining() == text@.skip(done),
        decreases text@.len() - done,
    {
        match rest.next() {
            None => {
                proof {
                    assert(text@.take(done) =~= text@);
                }
                return chars;
            },
            Some(c) => {
                chars.push(c);
                proof {
                    assert(c == text@[done]);
                    assert(text@.skip(done).drop_first() =~= text@.skip(done + 1));
                    assert(text@.take(done + 1) =~= text@.take(done).push(c));
                    done = done + 1;
                }
            },
        }
    }
}

/// The text made of the characters from one place up to another.
pub fn text_of(chars: &Vec<char>, from: usize, to: usize) -> (text: String)
    requires
        from <= to <= chars@.len(),
    ensures
        text@ == chars@.subrange(from as int, to as int),
{
    let mut text = String::new();
    let mut index: usize = from;
    proof {
        assert(chars@.subrange(from as int, from as int) =~= Seq::<char>::empty());
    }
    while index < to
        invariant
            from <= index <= to <= chars@.len(),
            text@ == chars@.subrange(from as int, index as int),
        decreases to - index,
    {
        proof {
            assert(chars@.subrange(from as int, index + 1) =~= chars@.subrange(
                from as int,
                index as int,
            ).push(chars@[index as int]));
        }
        text.push(chars[index]);
        index = index + 1;
    }
    text
}

/// The character for one digit of a base up to sixteen.
pub open spec fn digit(value: nat) -> char {
    if value < 10 {
        (48 + value) as char
    } else {
        (87 + value) as char
    }
}

fn digit_char(value: u8) -> (c: char)
    requires
        value < 16,
    ensures
        c == digit(value as nat),
{
    match value {
        0 => '0',
        1 => '1',
        2 => '2',
        3 => '3',
        4 => '4',
        5 => '5',
        6 => '6',
        7 => '7',
        8 => '8',
        9 => '9',
        10 => 'a',
        11 => 'b',
        12 => 'c',
        13 => 'd',
        14 => 'e',
        _ => 'f',
    }
}

/// The decimal digits of a number, without leading zeros.
pub open spec fn decimal(value: nat) -> Seq<char>
    decreases value,
{
    if value < 10 {
        seq![digit(value)]
    } else {
        decimal(value / 10).push(digit(value % 10))
    }
}

/// Writes a number in decimal.
pub fn decimal_text(value: u128) -> (text: String)
    ensures
        text@ == decimal(value as nat),
    decreases value,
{
    if value < 10 {
        let mut text = String::new();
        text.push(digit_char(value as u8));
        proof {
            assert(text@ =~= seq![digit(value as nat)]);
        }
        text
    } else {
        let mut text = decimal_text(value / 10);
        text.push(digit_char((value % 10) as u8));
        text
    }
}

/// The last `width` digits of a number in a base, with leading zeros.
pub open spec fn fixed_digits(value: nat, base: nat, width: nat) -> Seq<char>
    decreases width,
{
    if width == 0 {
        Seq::empty()
    } else {
        fixed_digits(value / base, base, (width - 1) as nat).push(digit(value % base))
    }
}

/// Writes the last `width` digits of a number in a base, with leading zeros.
pub fn fixed_text(value: u64, base: u64, width: usize) -> (text: String)
    requires
        2 <= base <= 16,
    ensures
        text@ == fixed_digits(value as nat, base as nat, width as nat),
    decreases width,
{
    if width == 0 {
        String::new()
    } else {
        let mut text = fixed_text(value / base, base, width - 1);
        text.push(digit_char((value % base) as u8));
        text
    }
}

/// Two digits of one base are equal only if their values are.
proof fn lemma_digit_injective(a: nat, b: nat)
    requires
        a < 16,
        b < 16,
        digit(a) == digit(b),
    ensures
        a == b,
{
    assert((48 + a) as char as int == 48 + a || a >= 10);
    assert((48 + b) as char as int == 48 + b || b >= 10);
    assert((87 + a) as char as int == 87 + a);
    assert((87 + b) as char as int == 87 + b);
}

/// Sixteen hexadecimal digits determine a 64-bit number.
pub proof fn lemma_hexadecimal_injective(a: u64, b: u64)
    requires
        fixed_digits(a as nat, 16, 16) == fixed_digits(b as nat, 16, 16),
    ensures
        a == b,
{
    assert(power16(16) == 0x1_0000_0000_0000_0000) by {
        reveal_with_fuel(power16, 17);
    }
    lemma_fixed_injective(a as nat, b as nat, 16);
}

/// Sixteen to the given power.
spec fn power16(exponent: nat) -> nat
    decreases exponent,
{
    if exponent == 0 {
        1
    } else {
        16 * power16((exponent - 1) as nat)
    }
}

proof fn lemma_fixed_injective(a: nat, b: nat, width: nat)
    requires
        fixed_digits(a, 16, width) == fixed_digits(b, 16, width),
        a < power16(width),
        b < power16(width),
    ensures
        a == b,
    decreases width,
{
    if width > 0 {
        let short = (width - 1) as nat;
        let fa = fixed_digits(a / 16, 16, short);
        let fb = fixed_digits(b / 16, 16, short);
        assert(fa.push(digit(a % 16)).last() == digit(a % 16));
        assert(fb.push(digit(b % 16)).last() == digit(b % 16));
        assert(fa.push(digit(a % 16)).drop_last() =~= fa);
        assert(fb.push(digit(b % 16)).drop_last() =~= fb);
        lemma_digit_injective(a % 16, b % 16);
        lemma_fixed_injective(a / 16, b / 16, short);
    }
}

/// The parts one after another, with a separator between neighbours.
pub open spec fn joined(parts: Seq<Seq<char>>, separator: Seq<char>) -> Seq<char>
    decreases parts.len(),
{
    if parts.len() == 0 {
        Seq::empty()
    } else if parts.len() == 1 {
        parts[0]
    } else {
        joined(parts.drop_last(), separator) + separator + parts.last()
    }
}

/// Puts the parts one after another, with a separator between neighbours.
pub fn join(parts: &Vec<String>, separator: &str) -> (text: String)
    ensures
        text@ == joined(parts.deep_view(), separator@),
{
    let mut text = String::new();
    let ghost all = parts.deep_view();
    let mut index: usize = 0;
    proof {
        assert(all.take(0) =~= Seq::<Seq<char>>::empty());
    }
    while index < parts.len()
        invariant
            all == parts.deep_view(),
            index <= parts.len(),
            text@ == joined(all.take(index as int), separator@),
        decreases parts.len() - index,
    {
        proof {
            let next = all.take(index + 1);
            assert(next.drop_last() =~= all.take(index as int));
            assert(next.last() == all[index as int]);
            assert(all[index as int] == parts[index as int]@);
        }
        if index > 0 {
            text.append(separator);
        }
        text.append(parts[index].as_str());
        proof {
            if index == 0 {
                assert(text@ =~= all[0]);
            }
        }
        index = index + 1;
    }
    proof {
        assert(all.take(all.len() as int) =~= all);
    }
    text
}

/// The pieces of a text between the places where a character stands.
pub open spec fn split_on(text: Seq<char>, separator: char) -> Seq<Seq<char>>
    decreases text.len(),
{
    if text.len() == 0 {
        seq![Seq::empty()]
    } else {
        let pieces = split_on(text.drop_last(), separator);
        if text.last() == separator {
            pieces.push(Seq::empty())
        } else {
            pieces.drop_last().push(pieces.last().push(text.last()))
        }
    }
}

/// A text always has at least one piece, and its pieces joined again give it back.
pub proof fn lemma_split_join(text: Seq<char>, separator: char)
    ensures
        split_on(text, separator).len() >= 1,
        joined(split_on(text, separator), seq![separator]) == text,
    decreases text.len(),
{
    if text.len() == 0 {
        assert(joined(split_on(text, separator), seq![separator]) =~= text);
    } else {
        let short = text.drop_last();
        let pieces = split_on(short, separator);
        lemma_split_join(short, separator);
        let all = split_on(text, separator);
        if text.last() == separator {
            assert(all.drop_last() =~= pieces);
            assert(joined(all, seq![separator]) =~= text);
        } else {
            assert(all.drop_last() =~= pieces.drop_last());
            if pieces.len() == 1 {
                assert(joined(pieces, seq![separator]) == pieces[0]);
                assert(joined(all, seq![separator]) =~= text);
            } else {
                assert(joined(pieces, seq![separator]) == joined(
                    pieces.drop_last(),
                    seq![separator],
                ) + seq![separator] + pieces.last());
                assert(joined(all, seq![separator]) == joined(pieces.drop_last(), seq![separator])
                    + seq![separator] + pieces.last().push(text.last()));
                assert(text =~= short.push(text.last()));
                assert(joined(all, seq![separator]) =~= short.push(text.last()));
            }
        }
    }
}

/// Splits a text at every place where a character stands.
pub fn split(text: &str, separator: char) -> (pieces: Vec<String>)
    ensures
        pieces.deep_view() == split_on(text@, separator),
{
    let chars = chars_of(text);
    let mut pieces: Vec<String> = Vec::new();
    let mut piece = String::new();
    let mut index: usize = 0;
    proof {
        assert(text@.take(0) =~= Seq::<char>::empty());
        assert(pieces.deep_view().push(piece@) =~= seq![Seq::<char>::empty()]);
    }
    while index < chars.len()
        invariant
            chars@ == text@,
            index <= chars.len(),
            pieces.deep_view().push(piece@) == split_on(text@.take(index as int), separator),
        decreases chars.len() - index,
    {
        let c = chars[index];
        let ghost before = split_on(text@.take(index as int), separator);
        proof {
            let next = text@.take(index + 1);
            assert(next.drop_last() =~= text@.take(index as int));
            assert(next.last() == c);
            assert(before.drop_last() =~= pieces.deep_view());
            assert(before.last() == piece@);
        }
        if c == separator {
            let ghost held = pieces.deep_view();
            let ghost last = piece@;
            pieces.push(piece);
            piece = String::new();
            proof {
                assert(pieces.deep_view() =~= held.push(last));
            }
        } else {
            piece.push(c);
        }
        index = index + 1;
    }
    proof {
        assert(text@.take(text@.len() as int) =~= text@);
    }
    let ghost held = pieces.deep_view();
    let ghost last = piece@;
    pieces.push(piece);
    proof {
        assert(pieces.deep_view() =~= held.push(last));
    }
    pieces
}

/// Whether one text starts with another.
pub open spec fn begins_with(text: Seq<char>, prefix: Seq<char>) -> bool {
    prefix.len() <= text.len() && text.take(prefix.len() as int) == prefix
}

/// What is left of a text behind a prefix, where it has that prefix.
pub open spec fn without_prefix(text: Seq<char>, prefix: Seq<char>) -> Option<Seq<char>> {
    if begins_with(text, prefix) {
        Some(text.skip(prefix.len() as int))
    } else {
        None
    }
}

/// Takes a prefix off a text.
pub fn strip_prefix(text: &str, prefix: &str) -> (rest: Option<String>)
    ensures
        rest.deep_view() == without_prefix(text@, prefix@),
{
    let chars = chars_of(text);
    let expected = chars_of(prefix);
    if chars.len() < expected.len() {
        return None;
    }
    let mut index: usize = 0;
    while index < expected.len()
        invariant
            chars@ == text@,
            expected@ == prefix@,
            index <= expected.len() <= chars.len(),
            forall|i: int| 0 <= i < index ==> #[trigger] chars@[i] == expected@[i],
        decreases expected.len() - index,
    {
        if chars[index] != expected[index] {
            proof {
                assert(text@.take(prefix@.len() as int)[index as int] != prefix@[index as int]);
            }
            return None;
        }
        index = index + 1;
    }
    proof {
        assert(text@.take(prefix@.len() as int) =~= prefix@);
        assert(text@.skip(prefix@.len() as int) =~= chars@.subrange(
            expected.len() as int,
            chars.len() as int,
        ));
    }
    Some(text_of(&chars, expected.len(), chars.len()))
}

/// Whether one text starts with another.
pub fn starts_with(text: &str, prefix: &str) -> (found: bool)
    ensures
        found == begins_with(text@, prefix@),
{
    strip_prefix(text, prefix).is_some()
}

/// A text with every occurrence of one character replaced by another.
pub open spec fn with_char(text: Seq<char>, from: char, to: char) -> Seq<char> {
    Seq::new(
        text.len(),
        |i: int|
            if text[i] == from {
                to
            } else {
                text[i]
            },
    )
}

/// Replaces every occurrence of one character by another.
pub fn replace_char(text: &str, from: char, to: char) -> (replaced: String)
    ensures
        replaced@ == with_char(text@, from, to),
{
    let chars = chars_of(text);
    let mut replaced = String::new();
    let mut index: usize = 0;
    while index < chars.len()
        invariant
            chars@ == text@,
            index <= chars.len(),
            replaced@ =~= with_char(text@, from, to).take(index as int),
        decreases chars.len() - index,
    {
        let c = chars[index];
        if c == from {
            replaced.push(to);
        } else {
            replaced.push(c);
        }
        index = index + 1;
    }
    replaced
}

/// Whether a character occurs in a text.
pub fn contains_char(text: &str, wanted: char) -> (found: bool)
    ensures
        found == text@.contains(wanted),
{
    let chars = chars_of(text);
    let mut index: usize = 0;
    while index < chars.len()
        invariant
            chars@ == text@,
            index <= chars.len(),
            forall|i: int| 0 <= i < index ==> text@[i] != wanted,
        decreases chars.len() - index,
    {
        if chars[index] == wanted {
            return true;
        }
        index = index + 1;
    }
    false
}

/// The place of a character at or behind another place; the end where there is none.
pub open spec fn place_of(text: Seq<char>, wanted: char, from: int) -> int
    decreases text.len() - from,
{
    if from >= text.len() {
        text.len() as int
    } else if text[from] == wanted {
        from
    } else {
        place_of(text, wanted, from + 1)
    }
}

/// The parts of a text before and behind the first place of a character.
pub open spec fn cut_once(text: Seq<char>, separator: char) -> Option<(Seq<char>, Seq<char>)> {
    let place = place_of(text, separator, 0);
    if place < text.len() {
        Some((text.take(place), text.skip(place + 1)))
    } else {
        None
    }
}

/// Cuts a text at the first place of a character.
pub fn split_once(text: &str, separator: char) -> (parts: Option<(String, String)>)
    ensures
        parts.deep_view() == cut_once(text@, separator),
{
    let chars = chars_of(text);
    let mut place: usize = 0;
    while place < chars.len()
        invariant
            chars@ == text@,
            place <= chars.len(),
            place_of(text@, separator, 0) == place_of(text@, separator, place as int),
        decreases chars.len() - place,
    {
        if chars[place] == separator {
            let head = text_of(&chars, 0, place);
            let tail = text_of(&chars, place + 1, chars.len());
            proof {
                assert(head@ =~= text@.take(place as int));
                assert(tail@ =~= text@.skip(place + 1));
            }
            return Some((head, tail));
        }
        place = place + 1;
    }
    None
}

/// The first characters of a text, at most so many.
pub open spec fn first_chars(text: Seq<char>, count: int) -> Seq<char> {
    if text.len() <= count {
        text
    } else {
        text.take(count)
    }
}

/// Takes the first characters of a text, at most so many.
pub fn take_chars(text: &str, count: usize) -> (head: String)
    ensures
        head@ == first_chars(text@, count as int),
{
    let chars = chars_of(text);
    if chars.len() <= count {
        text.to_owned()
    } else {
        let head = text_of(&chars, 0, count);
        proof {
            assert(head@ =~= text@.take(count as int));
        }
        head
    }
}

/// What is written for the items, one behind the other.
pub open spec fn written<A>(items: Seq<A>, piece: spec_fn(A) -> Seq<char>) -> Seq<char>
    decreases items.len(),
{
    if items.len() == 0 {
        Seq::empty()
    } else {
        written(items.drop_last(), piece) + piece(items.last())
    }
}

/// Writes the items, one behind the other.
pub(crate) fn write_each<A: DeepView, F: Fn(&A) -> String>(
    items: &Vec<A>,
    write: F,
    Ghost(piece): Ghost<spec_fn(<A as DeepView>::V) -> Seq<char>>,
) -> (text: String)
    requires
        forall|item: &A| call_requires(write, (item,)),
        forall|item: &A, wrote: String|
            call_ensures(write, (item,), wrote) ==> wrote@ == piece(item.deep_view()),
    ensures
        text@ == written(items.deep_view(), piece),
{
    let ghost all = items.deep_view();
    let mut text = String::new();
    let mut index: usize = 0;
    proof {
        assert(all.take(0) =~= Seq::<<A as DeepView>::V>::empty());
        assert(text@ =~= Seq::<char>::empty());
    }
    while index < items.len()
        invariant
            all == items.deep_view(),
            forall|item: &A| call_requires(write, (item,)),
            forall|item: &A, wrote: String|
                call_ensures(write, (item,), wrote) ==> wrote@ == piece(item.deep_view()),
            index <= all.len(),
            text@ == written(all.take(index as int), piece),
        decreases all.len() - index,
    {
        proof {
            assert(all.take(index as int + 1).drop_last() =~= all.take(index as int));
            assert(all[index as int] == items[index as int].deep_view());
        }
        let wrote = write(&items[index]);
        text.append(wrote.as_str());
        index = index + 1;
    }
    proof {
        assert(all.take(all.len() as int) =~= all);
    }
    text
}

/// A text with every occurrence of a part replaced, from the left; an empty part occurs before
/// every character and at the end.
pub open spec fn replaced(text: Seq<char>, from: Seq<char>, to: Seq<char>) -> Seq<char>
    decreases text.len(),
{
    if from.len() == 0 {
        if text.len() == 0 {
            to
        } else {
            to + seq![text[0]] + replaced(text.skip(1), from, to)
        }
    } else if text.len() < from.len() {
        text
    } else if begins_with(text, from) {
        to + replaced(text.skip(from.len() as int), from, to)
    } else {
        seq![text[0]] + replaced(text.skip(1), from, to)
    }
}

/// Replaces every occurrence of a part of a text.
pub fn replace_all(text: &str, from: &str, to: &str) -> (result: String)
    ensures
        result@ == replaced(text@, from@, to@),
{
    let chars = chars_of(text);
    let part = chars_of(from);
    let mut result = String::new();
    let mut index: usize = 0;
    proof {
        assert(text@.skip(0) =~= text@);
        assert(result@ + replaced(text@, from@, to@) =~= replaced(text@, from@, to@));
    }
    while index < chars.len() && part.len() <= chars.len() - index
        invariant
            chars@ == text@,
            part@ == from@,
            index <= chars.len(),
            result@ + replaced(text@.skip(index as int), from@, to@) == replaced(
                text@,
                from@,
                to@,
            ),
        decreases chars.len() - index,
    {
        let ghost before = result@;
        let ghost rest = text@.skip(index as int);
        if part.len() == 0 {
            result.append(to);
            result.push(chars[index]);
            proof {
                assert(rest.skip(1) =~= text@.skip(index as int + 1));
                assert(before + (to@ + seq![rest[0]] + replaced(rest.skip(1), from@, to@))
                    =~= result@ + replaced(rest.skip(1), from@, to@));
            }
            index = index + 1;
        } else if found_at(&chars, index, &part) {
            result.append(to);
            proof {
                assert(rest.skip(from@.len() as int) =~= text@.skip(index + from@.len()));
                assert(before + (to@ + replaced(rest.skip(from@.len() as int), from@, to@))
                    =~= result@ + replaced(rest.skip(from@.len() as int), from@, to@));
            }
            index = index + part.len();
        } else {
            result.push(chars[index]);
            proof {
                assert(rest.skip(1) =~= text@.skip(index as int + 1));
                assert(before + (seq![rest[0]] + replaced(rest.skip(1), from@, to@)) =~= result@
                    + replaced(rest.skip(1), from@, to@));
            }
            index = index + 1;
        }
    }
    if part.len() == 0 {
        result.append(to);
    } else {
        let rest = text_of(&chars, index, chars.len());
        proof {
            assert(rest@ =~= text@.skip(index as int));
        }
        result.append(rest.as_str());
    }
    result
}

fn found_at(chars: &Vec<char>, from: usize, part: &Vec<char>) -> (found: bool)
    requires
        from <= chars.len(),
        part.len() <= chars.len() - from,
    ensures
        found == begins_with(chars@.skip(from as int), part@),
{
    let ghost rest = chars@.skip(from as int);
    let mut index: usize = 0;
    while index < part.len()
        invariant
            from <= chars.len(),
            part.len() <= chars.len() - from,
            rest == chars@.skip(from as int),
            index <= part.len(),
            forall|i: int| 0 <= i < index ==> #[trigger] rest[i] == part[i],
        decreases part.len() - index,
    {
        if chars[from + index] != part[index] {
            proof {
                assert(rest[index as int] != part[index as int]);
            }
            return false;
        }
        index = index + 1;
    }
    proof {
        assert(rest.take(part.len() as int) =~= part@);
    }
    true
}

/// How many bytes a character takes in UTF-8.
pub open spec fn char_width(c: char) -> nat {
    if (c as u32) < 0x80 {
        1
    } else if (c as u32) < 0x800 {
        2
    } else if (c as u32) < 0x10000 {
        3
    } else {
        4
    }
}

fn width_of(c: char) -> (width: usize)
    ensures
        width == char_width(c),
{
    if (c as u32) < 0x80 {
        1
    } else if (c as u32) < 0x800 {
        2
    } else if (c as u32) < 0x10000 {
        3
    } else {
        4
    }
}

/// How many bytes a text takes in UTF-8.
pub open spec fn byte_length(text: Seq<char>) -> nat
    decreases text.len(),
{
    if text.len() == 0 {
        0
    } else {
        byte_length(text.drop_last()) + char_width(text.last())
    }
}

/// How many characters of a text take a number of bytes, from a number of characters on.
pub open spec fn chars_in_bytes(text: Seq<char>, bytes: nat, from: int) -> Option<int>
    decreases text.len() + 1 - from,
{
    if from < 0 || from > text.len() {
        None
    } else if byte_length(text.take(from)) == bytes {
        Some(from)
    } else {
        chars_in_bytes(text, bytes, from + 1)
    }
}

/// The start of a text that takes a number of bytes, or all of it where no start does.
pub open spec fn byte_prefix(text: Seq<char>, bytes: nat) -> Seq<char> {
    match chars_in_bytes(text, bytes, 0) {
        Some(count) => text.take(count),
        None => text,
    }
}

/// Takes the start of a text that takes a number of bytes, or all of it where no start does.
pub fn take_bytes(text: &str, bytes: usize) -> (head: String)
    ensures
        head@ == byte_prefix(text@, bytes as nat),
{
    let chars = chars_of(text);
    let mut length: u128 = 0;
    let mut index: usize = 0;
    proof {
        assert(text@.take(0) =~= Seq::<char>::empty());
    }
    while index < chars.len() && length < bytes as u128
        invariant
            chars@ == text@,
            index <= chars.len(),
            length == byte_length(text@.take(index as int)),
            index == 0 || length <= bytes + 3,
            chars_in_bytes(text@, bytes as nat, 0) == chars_in_bytes(
                text@,
                bytes as nat,
                index as int,
            ),
        decreases chars.len() - index,
    {
        proof {
            assert(text@.take(index as int + 1).drop_last() =~= text@.take(index as int));
        }
        length = length + width_of(chars[index]) as u128;
        index = index + 1;
    }
    if length == bytes as u128 {
        let head = text_of(&chars, 0, index);
        proof {
            assert(head@ =~= text@.take(index as int));
        }
        head
    } else {
        proof {
            if length < bytes {
                assert(chars_in_bytes(text@, bytes as nat, index as int + 1) is None);
            } else {
                lemma_no_start(text@, bytes as nat, index as int);
            }
        }
        text.to_owned()
    }
}

/// Longer starts take more bytes.
proof fn lemma_no_start(text: Seq<char>, bytes: nat, from: int)
    requires
        0 <= from <= text.len(),
        byte_length(text.take(from)) > bytes,
    ensures
        chars_in_bytes(text, bytes, from) is None,
    decreases text.len() - from,
{
    if from < text.len() {
        assert(text.take(from + 1).drop_last() =~= text.take(from));
        lemma_no_start(text, bytes, from + 1);
    } else {
        assert(chars_in_bytes(text, bytes, from + 1) is None);
    }
}

/// Whether a character is white space by Unicode.
pub open spec fn is_space(c: char) -> bool {
    let code = c as u32;
    (0x9 <= code <= 0xd) || code == 0x20 || code == 0x85 || code == 0xa0 || code == 0x1680 || (
    0x2000 <= code <= 0x200a) || code == 0x2028 || code == 0x2029 || code == 0x202f || code
        == 0x205f || code == 0x3000
}

/// Whether a character is white space by Unicode.
pub fn is_white_space(c: char) -> (result: bool)
    ensures
        result == is_space(c),
{
    let code: u32 = c as u32;
    (0x9 <= code && code <= 0xd) || code == 0x20 || code == 0x85 || code == 0xa0 || code == 0x1680
        || (0x2000 <= code && code <= 0x200a) || code == 0x2028 || code == 0x2029 || code == 0x202f
        || code == 0x205f || code == 0x3000
}

/// A text without its white space.
pub open spec fn compact(text: Seq<char>) -> Seq<char>
    decreases text.len(),
{
    if text.len() == 0 {
        text
    } else if is_space(text.last()) {
        compact(text.drop_last())
    } else {
        compact(text.drop_last()).push(text.last())
    }
}

/// Takes the white space out of a text.
pub fn without_spaces(text: &str) -> (result: String)
    ensures
        result@ == compact(text@),
{
    let chars = chars_of(text);
    let mut result = String::new();
    let mut index: usize = 0;
    proof {
        assert(text@.take(0) =~= Seq::<char>::empty());
        assert(result@ =~= Seq::<char>::empty());
    }
    while index < chars.len()
        invariant
            chars@ == text@,
            index <= chars.len(),
            result@ == compact(text@.take(index as int)),
        decreases chars.len() - index,
    {
        proof {
            assert(text@.take(index as int + 1).drop_last() =~= text@.take(index as int));
        }
        if !is_white_space(chars[index]) {
            result.push(chars[index]);
        }
        index = index + 1;
    }
    proof {
        assert(text@.take(text@.len() as int) =~= text@);
    }
    result
}

/// The place of the first character that is not among some, from a place on.
pub open spec fn first_beyond(text: Seq<char>, trimmed: spec_fn(char) -> bool, from: int) -> int
    decreases text.len() - from,
{
    if from >= text.len() || !trimmed(text[from]) {
        from
    } else {
        first_beyond(text, trimmed, from + 1)
    }
}

/// The place behind the last character that is not among some, from a place back.
pub open spec fn last_beyond(text: Seq<char>, trimmed: spec_fn(char) -> bool, to: int) -> int
    decreases to,
{
    if to <= 0 || !trimmed(text[to - 1]) {
        to
    } else {
        last_beyond(text, trimmed, to - 1)
    }
}

/// A text without the characters among some at its ends.
pub open spec fn trimmed_of(text: Seq<char>, among: spec_fn(char) -> bool) -> Seq<char> {
    let from = first_beyond(text, among, 0);
    if from >= text.len() {
        Seq::empty()
    } else {
        text.subrange(from, last_beyond(text, among, text.len() as int))
    }
}

/// White space.
pub open spec fn spaces() -> spec_fn(char) -> bool {
    |c: char| is_space(c)
}

/// Double quotes.
pub open spec fn quotes() -> spec_fn(char) -> bool {
    |c: char| c == '"'
}

fn trim_where<F: Fn(char) -> bool>(
    text: &str,
    test: F,
    Ghost(among): Ghost<spec_fn(char) -> bool>,
) -> (result: String)
    requires
        forall|c: char| call_requires(test, (c,)),
        forall|c: char, result: bool| call_ensures(test, (c,), result) ==> result == among(c),
    ensures
        result@ == trimmed_of(text@, among),
{
    let chars = chars_of(text);
    let mut from: usize = 0;
    while from < chars.len() && test(chars[from])
        invariant
            forall|c: char| call_requires(test, (c,)),
            forall|c: char, result: bool| call_ensures(test, (c,), result) ==> result == among(c),
            chars@ == text@,
            from <= chars.len(),
            first_beyond(text@, among, 0) == first_beyond(text@, among, from as int),
            forall|i: int| 0 <= i < from ==> among(#[trigger] text@[i]),
        decreases chars.len() - from,
    {
        from = from + 1;
    }
    if from == chars.len() {
        let result = String::new();
        proof {
            assert(result@ =~= Seq::<char>::empty());
        }
        return result;
    }
    let mut to: usize = chars.len();
    proof {
        assert(!among(text@[from as int]));
    }
    while to > 0 && test(chars[to - 1])
        invariant
            forall|c: char| call_requires(test, (c,)),
            forall|c: char, result: bool| call_ensures(test, (c,), result) ==> result == among(c),
            chars@ == text@,
            from < to <= chars.len(),
            !among(text@[from as int]),
            last_beyond(text@, among, text@.len() as int) == last_beyond(text@, among, to as int),
        decreases to,
    {
        to = to - 1;
    }
    let result = text_of(&chars, from, to);
    proof {
        assert(result@ =~= text@.subrange(from as int, to as int));
    }
    result
}

/// Takes the white space off the ends of a text.
pub fn trim(text: &str) -> (result: String)
    ensures
        result@ == trimmed_of(text@, spaces()),
{
    let ghost among = spaces();
    let test = |c: char| -> (result: bool)
        ensures
            result == among(c),
    {
        is_white_space(c)
    };
    trim_where(text, test, Ghost(among))
}

/// Takes the double quotes off the ends of a text.
pub fn trim_quotes(text: &str) -> (result: String)
    ensures
        result@ == trimmed_of(text@, quotes()),
{
    let ghost among = quotes();
    let test = |c: char| -> (result: bool)
        ensures
            result == among(c),
    {
        c == '"'
    };
    trim_where(text, test, Ghost(among))
}

/// Whether a text holds a part.
pub open spec fn holds_part(text: Seq<char>, part: Seq<char>) -> bool {
    exists|i: int|
        0 <= i <= text.len() - part.len() && #[trigger] text.subrange(i, i + part.len()) == part
}

/// Whether a text holds a part.
pub fn contains_part(text: &str, part: &str) -> (found: bool)
    ensures
        found == holds_part(text@, part@),
{
    let chars = chars_of(text);
    let wanted = chars_of(part);
    if wanted.len() > chars.len() {
        return false;
    }
    let last = chars.len() - wanted.len();
    let mut index: usize = 0;
    loop
        invariant
            chars@ == text@,
            wanted@ == part@,
            last == chars.len() - wanted.len(),
            index <= last,
            wanted.len() <= chars.len(),
            forall|i: int|
                0 <= i < index ==> #[trigger] text@.subrange(i, i + part@.len()) != part@,
        decreases last - index,
    {
        proof {
            assert(text@.skip(index as int).take(part@.len() as int) =~= text@.subrange(
                index as int,
                index + part@.len(),
            ));
        }
        if found_at(&chars, index, &wanted) {
            return true;
        }
        if index == last {
            return false;
        }
        index = index + 1;
    }
}

/// Whether a text ends with a part.
pub open spec fn has_suffix(text: Seq<char>, part: Seq<char>) -> bool {
    text.len() >= part.len() && text.skip(text.len() - part.len()) == part
}

/// Whether a text ends with a part.
pub fn ends_with(text: &str, part: &str) -> (found: bool)
    ensures
        found == has_suffix(text@, part@),
{
    let chars = chars_of(text);
    let wanted = chars_of(part);
    if wanted.len() > chars.len() {
        return false;
    }
    proof {
        let rest = text@.skip(text@.len() - part@.len());
        assert(rest.take(part@.len() as int) =~= rest);
    }
    found_at(&chars, chars.len() - wanted.len(), &wanted)
}

/// The empty text.
pub fn no_text() -> (text: String)
    ensures
        text@ == Seq::<char>::empty(),
{
    let text = String::new();
    proof {
        assert(text@ =~= Seq::<char>::empty());
    }
    text
}

/// Counts the bytes that a text takes in UTF-8.
pub fn utf8_length(text: &str) -> (length: u128)
    ensures
        length == byte_length(text@),
{
    let chars = chars_of(text);
    let mut length: u128 = 0;
    let mut index: usize = 0;
    proof {
        assert(text@.take(0) =~= Seq::<char>::empty());
    }
    while index < chars.len()
        invariant
            chars@ == text@,
            index <= chars.len(),
            length == byte_length(text@.take(index as int)),
            length <= 4 * index,
        decreases chars.len() - index,
    {
        proof {
            assert(text@.take(index as int + 1).drop_last() =~= text@.take(index as int));
        }
        length = length + width_of(chars[index]) as u128;
        index = index + 1;
    }
    proof {
        assert(text@.take(text@.len() as int) =~= text@);
    }
    length
}

/// Whether a character is an ASCII letter or digit.
pub open spec fn is_alphanumeric(c: char) -> bool {
    ('a' <= c && c <= 'z') || ('A' <= c && c <= 'Z') || ('0' <= c && c <= '9')
}

/// Whether a character is an ASCII letter or digit.
pub fn alphanumeric(c: char) -> (result: bool)
    ensures
        result == is_alphanumeric(c),
{
    ('a' <= c && c <= 'z') || ('A' <= c && c <= 'Z') || ('0' <= c && c <= '9')
}

/// The characters of a text, each replaced.
pub open spec fn mapped(text: Seq<char>, f: spec_fn(char) -> char) -> Seq<char> {
    Seq::new(text.len(), |i: int| f(text[i]))
}

/// What is written of some items starts with what is written of the first.
pub proof fn lemma_written_first<A>(items: Seq<A>, piece: spec_fn(A) -> Seq<char>)
    requires
        items.len() > 0,
    ensures
        written(items, piece) == piece(items[0]) + written(items.drop_first(), piece),
    decreases items.len(),
{
    if items.len() == 1 {
        assert(items.drop_last() =~= Seq::<A>::empty());
        assert(items.drop_first() =~= Seq::<A>::empty());
        assert(written(items, piece) =~= piece(items[0]) + written(items.drop_first(), piece));
    } else {
        lemma_written_first(items.drop_last(), piece);
        assert(items.drop_last().drop_first() =~= items.drop_first().drop_last());
        assert(written(items, piece) =~= piece(items[0]) + written(items.drop_first(), piece));
    }
}

/// Numbers are written with digits.
pub proof fn lemma_decimal_digits(value: nat)
    ensures
        decimal(value).len() > 0,
        forall|i: int|
            0 <= i < decimal(value).len() ==> '0' <= (#[trigger] decimal(value)[i]) && decimal(
                value,
            )[i] <= '9',
    decreases value,
{
    if value >= 10 {
        lemma_decimal_digits(value / 10);
    }
}

/// Different numbers are written differently.
pub proof fn lemma_decimal_injective(a: nat, b: nat)
    requires
        decimal(a) == decimal(b),
    ensures
        a == b,
    decreases a,
{
    lemma_decimal_digits(a / 10);
    lemma_decimal_digits(b / 10);
    assert(decimal(a).last() == digit(a % 10));
    assert(decimal(b).last() == digit(b % 10));
    assert(digit(a % 10) as int == 48 + a % 10);
    assert(digit(b % 10) as int == 48 + b % 10);
    if a < 10 {
        assert(decimal(a).len() == 1);
    } else {
        assert(decimal(a).len() > 1);
    }
    if b < 10 {
        assert(decimal(b).len() == 1);
    } else {
        assert(decimal(b).len() > 1);
    }
    if a >= 10 && b >= 10 {
        assert(decimal(a).drop_last() =~= decimal(a / 10));
        assert(decimal(b).drop_last() =~= decimal(b / 10));
        lemma_decimal_injective(a / 10, b / 10);
    }
}

/// A text takes more bytes than any shorter start of it.
pub proof fn lemma_byte_length_grows(text: Seq<char>, count: int)
    requires
        0 <= count < text.len(),
    ensures
        byte_length(text.take(count)) < byte_length(text),
    decreases text.len(),
{
    if count == text.len() - 1 {
        assert(text.take(count) =~= text.drop_last());
    } else {
        lemma_byte_length_grows(text.drop_last(), count);
        assert(text.drop_last().take(count) =~= text.take(count));
    }
}

/// The last place of a character among the first ones of a text.
pub open spec fn last_place_of(text: Seq<char>, wanted: char, count: int) -> Option<int>
    decreases count,
{
    if count <= 0 {
        None
    } else if text[count - 1] == wanted {
        Some(count - 1)
    } else {
        last_place_of(text, wanted, count - 1)
    }
}

/// A text cut at the last occurrence of a character.
pub open spec fn cut_last(text: Seq<char>, separator: char) -> Option<(Seq<char>, Seq<char>)> {
    match last_place_of(text, separator, text.len() as int) {
        Some(place) => Some((text.take(place), text.skip(place + 1))),
        None => None,
    }
}

/// Cuts a text at the last occurrence of a character.
pub fn split_last(text: &str, separator: char) -> (parts: Option<(String, String)>)
    ensures
        parts.deep_view() == cut_last(text@, separator),
{
    let chars = chars_of(text);
    let mut count: usize = chars.len();
    while count > 0
        invariant
            chars@ == text@,
            count <= chars.len(),
            last_place_of(text@, separator, text@.len() as int) == last_place_of(
                text@,
                separator,
                count as int,
            ),
        decreases count,
    {
        if chars[count - 1] == separator {
            let head = text_of(&chars, 0, count - 1);
            let tail = text_of(&chars, count, chars.len());
            proof {
                assert(head@ =~= text@.take(count - 1));
                assert(tail@ =~= text@.skip(count as int));
            }
            return Some((head, tail));
        }
        count = count - 1;
    }
    None
}

/// Whether a character is a decimal digit.
pub open spec fn is_digit(c: char) -> bool {
    '0' <= c && c <= '9'
}

/// The value of a decimal digit.
pub open spec fn digit_value(c: char) -> nat {
    (c as u32 - 48) as nat
}

/// The number that digits stand for.
pub open spec fn digits_value(digits: Seq<char>) -> nat
    decreases digits.len(),
{
    if digits.len() == 0 {
        0
    } else {
        digits_value(digits.drop_last()) * 10 + digit_value(digits.last())
    }
}

/// The digits of a number, which a plus may precede.
pub open spec fn digits_of(text: Seq<char>) -> Seq<char> {
    if text.len() > 0 && text[0] == '+' {
        text.skip(1)
    } else {
        text
    }
}

/// The number that a text stands for.
pub open spec fn number_of(text: Seq<char>) -> Option<nat> {
    let digits = digits_of(text);
    if digits.len() > 0 && forall|i: int| 0 <= i < digits.len() ==> is_digit(#[trigger] digits[i]) {
        Some(digits_value(digits))
    } else {
        None
    }
}

/// The number that a text stands for, where it is no greater than a limit.
pub open spec fn number_upto(text: Seq<char>, limit: nat) -> Option<nat> {
    match number_of(text) {
        Some(number) => if number <= limit {
            Some(number)
        } else {
            None
        },
        None => None,
    }
}

fn value_of_digit(c: char) -> (value: u64)
    requires
        is_digit(c),
    ensures
        value == digit_value(c),
        value < 10,
{
    (c as u32 - 48) as u64
}

/// More digits make no smaller number.
proof fn lemma_digits_grow(digits: Seq<char>, count: int)
    requires
        0 <= count <= digits.len(),
    ensures
        digits_value(digits.take(count)) <= digits_value(digits),
    decreases digits.len(),
{
    if count == digits.len() {
        assert(digits.take(count) =~= digits);
    } else {
        lemma_digits_grow(digits.drop_last(), count);
        assert(digits.drop_last().take(count) =~= digits.take(count));
    }
}

/// Reads the number that a text stands for, where it is no greater than a limit.
pub fn parse_number(text: &str, limit: u64) -> (number: Option<u64>)
    ensures
        match number {
            Some(number) => number_upto(text@, limit as nat) == Some(number as nat),
            None => number_upto(text@, limit as nat) is None,
        },
{
    let chars = chars_of(text);
    let ghost digits = digits_of(text@);
    let start: usize = if chars.len() > 0 && chars[0] == '+' {
        1
    } else {
        0
    };
    proof {
        assert(digits =~= text@.skip(start as int));
    }
    if start >= chars.len() {
        return None;
    }
    let mut value: u128 = 0;
    let mut at: usize = start;
    proof {
        assert(digits.take(0) =~= Seq::<char>::empty());
    }
    while at < chars.len()
        invariant
            chars@ == text@,
            digits == digits_of(text@),
            digits == text@.skip(start as int),
            start <= at <= chars.len(),
            value == digits_value(digits.take(at - start)),
            value <= limit,
            forall|i: int| 0 <= i < at - start ==> is_digit(#[trigger] digits[i]),
        decreases chars.len() - at,
    {
        let c = chars[at];
        let ghost place = at - start;
        proof {
            assert(digits[place] == c);
        }
        if !('0' <= c && c <= '9') {
            proof {
                assert(!is_digit(digits[place]));
            }
            return None;
        }
        value = value * 10 + value_of_digit(c) as u128;
        proof {
            assert(digits.take(place + 1).drop_last() =~= digits.take(place));
            lemma_digits_grow(digits, place + 1);
        }
        if value > limit as u128 {
            return None;
        }
        at = at + 1;
    }
    proof {
        assert(digits.take(digits.len() as int) =~= digits);
    }
    Some(value as u64)
}

/// A line without the carriage return at its end.
pub open spec fn without_return(line: Seq<char>) -> Seq<char> {
    if line.len() > 0 && line.last() == '\r' {
        line.drop_last()
    } else {
        line
    }
}

/// The lines of pieces that line feeds end, the last piece aside.
pub open spec fn ended_lines(pieces: Seq<Seq<char>>) -> Seq<Seq<char>> {
    Seq::new((pieces.len() - 1) as nat, |i: int| without_return(pieces[i]))
}

/// The lines of a text. A line feed ends a line, with the carriage return before it; what follows
/// the last line feed is a line where there is something.
pub open spec fn lines_of(text: Seq<char>) -> Seq<Seq<char>> {
    let pieces = split_on(text, '\n');
    if pieces.last().len() == 0 {
        ended_lines(pieces)
    } else {
        ended_lines(pieces).push(pieces.last())
    }
}

/// Lists the lines of a text.
pub fn list_lines(text: &str) -> (lines: Vec<String>)
    ensures
        lines.deep_view() == lines_of(text@),
{
    let pieces = split(text, '\n');
    let ghost all = pieces.deep_view();
    proof {
        lemma_split_join(text@, '\n');
        assert(all.len() == pieces.len());
    }
    let last = pieces.len() - 1;
    let mut lines: Vec<String> = no_items();
    let mut at: usize = 0;
    while at < last
        invariant
            all == pieces.deep_view(),
            at <= last < pieces.len() == last + 1,
            lines.deep_view() == ended_lines(all).take(at as int),
        decreases last - at,
    {
        let chars = chars_of(pieces[at].as_str());
        proof {
            assert(all[at as int] == pieces[at as int]@);
            assert(ended_lines(all).take(at as int + 1) =~= ended_lines(all).take(at as int).push(
                without_return(all[at as int]),
            ));
        }
        if chars.len() > 0 && chars[chars.len() - 1] == '\r' {
            proof {
                assert(all[at as int].drop_last() =~= all[at as int].subrange(
                    0,
                    chars.len() - 1,
                ));
            }
            push_item(&mut lines, text_of(&chars, 0, chars.len() - 1));
        } else {
            push_item(&mut lines, pieces[at].clone());
        }
        at = at + 1;
    }
    proof {
        assert(ended_lines(all).take(last as int) =~= ended_lines(all));
        assert(all[last as int] == pieces[last as int]@);
        reveal_strlit("");
        if pieces[last as int]@.len() == 0 {
            assert(pieces[last as int]@ =~= ""@);
        }
    }
    if !same(pieces[last].as_str(), "") {
        push_item(&mut lines, pieces[last].clone());
    }
    lines
}

/// Whether a character is white space of ASCII.
pub open spec fn is_ascii_space(c: char) -> bool {
    c == ' ' || c == '\t' || c == '\n' || c == '\r' || c == '\x0c'
}

/// The words among the first characters of a text, and the word that has begun.
pub open spec fn words_upto(text: Seq<char>, count: int) -> (Seq<Seq<char>>, Seq<char>)
    decreases count,
{
    if count <= 0 {
        (Seq::empty(), Seq::empty())
    } else {
        let (words, begun) = words_upto(text, count - 1);
        let c = text[count - 1];
        if !is_ascii_space(c) {
            (words, begun.push(c))
        } else if begun.len() == 0 {
            (words, begun)
        } else {
            (words.push(begun), Seq::empty())
        }
    }
}

/// The words of a text, between white space of ASCII.
pub open spec fn words_of(text: Seq<char>) -> Seq<Seq<char>> {
    let (words, begun) = words_upto(text, text.len() as int);
    if begun.len() == 0 {
        words
    } else {
        words.push(begun)
    }
}

/// Lists the words of a text, between white space of ASCII.
pub fn list_words(text: &str) -> (words: Vec<String>)
    ensures
        words.deep_view() == words_of(text@),
{
    let chars = chars_of(text);
    let mut words: Vec<String> = no_items();
    let mut from: usize = 0;
    let mut at: usize = 0;
    proof {
        assert(chars@.subrange(0, 0) =~= Seq::<char>::empty());
    }
    while at < chars.len()
        invariant
            chars@ == text@,
            from <= at <= chars.len(),
            words_upto(text@, at as int) == (
                words.deep_view(),
                chars@.subrange(from as int, at as int),
            ),
        decreases chars.len() - at,
    {
        let c = chars[at];
        proof {
            assert(chars@.subrange(from as int, at as int + 1) =~= chars@.subrange(
                from as int,
                at as int,
            ).push(c));
            assert(chars@.subrange(at as int + 1, at as int + 1) =~= Seq::<char>::empty());
        }
        if c == ' ' || c == '\t' || c == '\n' || c == '\r' || c == '\x0c' {
            if from < at {
                push_item(&mut words, text_of(&chars, from, at));
            }
            proof {
                if from == at {
                    assert(chars@.subrange(from as int, at as int) =~= Seq::<char>::empty());
                }
            }
            from = at + 1;
        }
        at = at + 1;
    }
    if from < at {
        push_item(&mut words, text_of(&chars, from, at));
    }
    words
}

/// Reads bytes as text with `String::from_utf8`: it gives the characters that the bytes encode, and
/// fails where they are no UTF-8.
#[verifier::external_body]
fn read_utf8(bytes: &Vec<u8>) -> (text: Option<String>)
    ensures
        match text {
            Some(text) => vstd::utf8::valid_utf8(bytes@) && text@ == vstd::utf8::decode_utf8(
                bytes@,
            ),
            None => !vstd::utf8::valid_utf8(bytes@),
        },
{
    String::from_utf8(bytes.clone()).ok()
}

/// Reads bytes as text, or says that they are none.
pub fn text_from(bytes: &Vec<u8>, complaint: &str) -> (result: Result<String, String>)
    ensures
        match result {
            Ok(text) => vstd::utf8::valid_utf8(bytes@) && text@ == vstd::utf8::decode_utf8(bytes@),
            Err(message) => !vstd::utf8::valid_utf8(bytes@) && message@ == complaint@,
        },
{
    match read_utf8(bytes) {
        Some(text) => Ok(text),
        None => Err(complaint.to_owned()),
    }
}

} // verus!
