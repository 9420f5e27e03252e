//! Text as sequences of characters: comparing, joining, splitting, and
//! writing numbers in decimal.
use vstd::prelude::*;
use vstd::string::{StrSliceExecFns, StringExecFns};

verus! {

/// The character for one decimal digit.
pub open spec fn digit(value: nat) -> char
    recommends
        value < 10,
{
    "0123456789"@[value as int]
}

/// A natural number in decimal, without leading zeros.
pub open spec fn digits(value: nat) -> Seq<char>
    decreases value,
{
    if value < 10 {
        seq![digit(value)]
    } else {
        digits(value / 10).push(digit(value % 10))
    }
}

/// An integer in decimal, with a leading minus sign where it is negative.
pub open spec fn decimal(value: int) -> Seq<char> {
    if value < 0 {
        seq!['-'] + digits((-value) as nat)
    } else {
        digits(value as nat)
    }
}

/// The pieces of `text` between the separators in it, empty ones among them:
/// each separator ends one piece and begins the next, and every other
/// character belongs to the piece it stands in.
pub open spec fn pieces(text: Seq<char>, separator: char) -> Seq<Seq<char>>
    decreases text.len(),
{
    if text.len() == 0 {
        seq![text]
    } else {
        let before = pieces(text.drop_last(), separator);
        if text.last() == separator {
            before.push(seq![])
        } else {
            before.drop_last().push(before.last().push(text.last()))
        }
    }
}

/// The contents of each of a list of pieces.
pub open spec fn contents(list: Seq<Vec<char>>) -> Seq<Seq<char>> {
    list.map_values(|piece: Vec<char>| piece@)
}

/// No piece holds the separator, and there is always at least one piece.
pub proof fn pieces_hold_no_separator(text: Seq<char>, separator: char)
    ensures
        pieces(text, separator).len() > 0,
        forall|i: int|
            0 <= i < pieces(text, separator).len() ==> !(#[trigger] pieces(
                text,
                separator,
            )[i]).contains(separator),
    decreases text.len(),
{
    if text.len() > 0 {
        pieces_hold_no_separator(text.drop_last(), separator);
        let before = pieces(text.drop_last(), separator);
        let now = pieces(text, separator);
        assert forall|i: int| 0 <= i < now.len() implies !(#[trigger] now[i]).contains(
            separator,
        ) by {
            if i < before.len() - 1 {
                assert(now[i] == before[i]);
            } else if text.last() == separator && i == before.len() - 1 {
                assert(now[i] == before[i]);
            } else if text.last() != separator {
                assert(!before[before.len() - 1].contains(separator));
                let grown = before.last().push(text.last());
                if grown.contains(separator) {
                    let at = choose|at: int| 0 <= at < grown.len() && grown[at] == separator;
                    assert(before.last()[at] == separator);
                }
            }
        }
    }
}

/// The characters of `text`, in order.
pub fn characters(text: &str) -> (all: Vec<char>)
    ensures
        all@ == text@,
{
    let mut all: Vec<char> = Vec::new();
    for c in iter: text.chars()
        invariant
            iter.seq() == text@,
            all@ == text@.take(iter.index() as int),
    {
        all.push(c);
    }
    all
}

/// Whether two texts are the same, character for character.
pub fn same_text(left: &str, right: &str) -> (same: bool)
    ensures
        same == (left@ == right@),
{
    left.to_owned() == right.to_owned()
}

/// `before`, `inner` and `after` in one text.
pub fn enclosed(before: &str, inner: &str, after: &str) -> (whole: String)
    ensures
        whole@ == before@ + inner@ + after@,
{
    let mut whole = before.to_owned();
    whole.append(inner);
    whole.append(after);
    whole
}

/// The pieces of `text` between the separators in it.
pub fn split(text: &str, separator: char) -> (list: Vec<Vec<char>>)
    ensures
        contents(list@) == pieces(text@, separator),
{
    let all = characters(text);
    let mut list: Vec<Vec<char>> = Vec::new();
    let mut current: Vec<char> = Vec::new();
    let mut i: usize = 0;
    assert(all@.take(0) =~= current@);
    assert(contents(list@).push(current@) =~= pieces(all@.take(0), separator));
    while i < all.len()
        invariant
            i <= all.len(),
            contents(list@).push(current@) == pieces(all@.take(i as int), separator),
        decreases all.len() - i,
    {
        let ghost done = contents(list@);
        let ghost open = current@;
        assert(all@.take(i + 1).drop_last() =~= all@.take(i as int));
        if all[i] == separator {
            list.push(current);
            current = Vec::new();
            assert(contents(list@) =~= done.push(open));
            assert(contents(list@).push(current@) =~= done.push(open).push(seq![]));
        } else {
            current.push(all[i]);
            assert(done.push(open).drop_last() =~= done);
        }
        i = i + 1;
    }
    list.push(current);
    assert(all@.take(all@.len() as int) =~= all@);
    assert(contents(list@) =~= contents(list@.drop_last()).push(current@));
    list
}

fn unsigned_text(value: u128) -> (text: String)
    ensures
        text@ == digits(value as nat),
    decreases value,
{
    proof {
        reveal_strlit("0123456789");
    }
    let last: usize = (value % 10) as usize;
    let figure = "0123456789".substring_ascii(last, last + 1);
    if value < 10 {
        assert(figure@ =~= seq![digit(value as nat)]);
        figure.to_owned()
    } else {
        let mut text = unsigned_text(value / 10);
        text.append(figure);
        assert(text@ =~= digits((value / 10) as nat).push(digit((value % 10) as nat)));
        text
    }
}

/// An integer written in decimal.
pub fn decimal_text(value: i128) -> (text: String)
    ensures
        text@ == decimal(value as int),
{
    if value < 0 {
        proof {
            reveal_strlit("-");
        }
        let magnitude: u128 = if value == i128::MIN {
            0x8000_0000_0000_0000_0000_0000_0000_0000
        } else {
            (-value) as u128
        };
        let mut text = "-".to_owned();
        text.append(unsigned_text(magnitude).as_str());
        assert(text@ =~= seq!['-'] + digits(magnitude as nat));
        text
    } else {
        unsigned_text(value as u128)
    }
}

/// The number that a run of decimal digits is read as.
pub open spec fn number(text: Seq<char>) -> int
    decreases text.len(),
{
    if text.len() == 0 {
        0
    } else {
        number(text.drop_last()) * 10 + (text.last() as int - '0' as int)
    }
}

proof fn lemma_digits_read_back(value: nat)
    ensures
        number(digits(value)) == value,
        digits(value).len() > 0,
        forall|i: int|
            0 <= i < digits(value).len() ==> '0' <= #[trigger] digits(value)[i] <= '9',
        value > 0 ==> digits(value)[0] != '0',
        value == 0 ==> digits(value).len() == 1,
    decreases value,
{
    reveal_strlit("0123456789");
    if value < 10 {
        let text = digits(value);
        assert(text.drop_last() =~= seq![]);
        assert(number(text.drop_last()) == 0);
    } else {
        lemma_digits_read_back(value / 10);
        assert(digits(value).drop_last() =~= digits(value / 10));
    }
}

/// An integer in decimal reads back as itself: digits and nothing else, no
/// leading zero, and, below zero, a minus sign before the digits of its
/// magnitude.
pub proof fn decimal_reads_back(value: int)
    ensures
        value >= 0 ==> {
            &&& number(decimal(value)) == value
            &&& decimal(value).len() > 0
            &&& forall|i: int|
                0 <= i < decimal(value).len() ==> '0' <= #[trigger] decimal(value)[i] <= '9'
            &&& decimal(value).len() > 1 ==> decimal(value)[0] != '0'
        },
        value < 0 ==> {
            &&& decimal(value).len() > 1
            &&& decimal(value)[0] == '-'
            &&& decimal(value).drop_first() == decimal(-value)
        },
{
    if value >= 0 {
        lemma_digits_read_back(value as nat);
    } else {
        lemma_digits_read_back((-value) as nat);
        assert(decimal(value).drop_first() =~= decimal(-value));
    }
}

/// Texts with a separator between each and the next.
pub open spec fn joined(list: Seq<Seq<char>>, separator: char) -> Seq<char>
    decreases list.len(),
{
    if list.len() == 0 {
        seq![]
    } else if list.len() == 1 {
        list[0]
    } else {
        joined(list.drop_last(), separator).push(separator) + list.last()
    }
}

/// Whether `word` is what stands in `text` from `from` to `to`, with the ends
/// of the text or separators on both sides.
pub open spec fn stands_at(
    text: Seq<char>,
    separator: char,
    word: Seq<char>,
    from: int,
    to: int,
) -> bool {
    &&& 0 <= from <= to <= text.len()
    &&& text.subrange(from, to) == word
    &&& from == 0 || text[from - 1] == separator
    &&& to == text.len() || text[to] == separator
}

/// Whether `word` is one of the words of `text`: it stands there between two
/// separators, or between one and an end, and holds none itself.
pub open spec fn is_word_of(text: Seq<char>, separator: char, word: Seq<char>) -> bool {
    !word.contains(separator) && exists|from: int, to: int| #[trigger]
        stands_at(text, separator, word, from, to)
}

/// Joining the pieces of a text gives the text back.
pub proof fn joining_undoes_splitting(text: Seq<char>, separator: char)
    ensures
        joined(pieces(text, separator), separator) == text,
    decreases text.len(),
{
    if text.len() > 0 {
        joining_undoes_splitting(text.drop_last(), separator);
        pieces_hold_no_separator(text.drop_last(), separator);
        let before = pieces(text.drop_last(), separator);
        let now = pieces(text, separator);
        if text.last() == separator {
            assert(now.drop_last() =~= before);
            assert(joined(now, separator) =~= text.drop_last().push(separator));
        } else {
            assert(now.drop_last() =~= before.drop_last());
        }
        assert(text.drop_last().push(text.last()) =~= text);
        assert(joined(now, separator) =~= text);
    } else {
        assert(pieces(text, separator) =~= seq![text]);
    }
}

/// The pieces of two texts with a separator between them are those of the
/// one and then those of the other.
pub proof fn pieces_of_a_join(left: Seq<char>, separator: char, right: Seq<char>)
    ensures
        pieces(left.push(separator) + right, separator) == pieces(left, separator) + pieces(
            right,
            separator,
        ),
    decreases right.len(),
{
    let whole = left.push(separator) + right;
    if right.len() == 0 {
        assert(whole =~= left.push(separator));
        assert(whole.drop_last() =~= left);
        assert(right =~= seq![]);
        assert(pieces(whole, separator) =~= pieces(left, separator) + pieces(right, separator));
    } else {
        pieces_of_a_join(left, separator, right.drop_last());
        pieces_hold_no_separator(right.drop_last(), separator);
        assert(whole.drop_last() =~= left.push(separator) + right.drop_last());
        assert(whole.last() == right.last());
        let head = pieces(left, separator);
        let tail = pieces(right.drop_last(), separator);
        assert((head + tail).last() == tail.last());
        assert((head + tail).drop_last() =~= head + tail.drop_last());
        assert(pieces(whole, separator) =~= head + pieces(right, separator));
    }
}

/// A text without a separator is the one piece of itself.
pub proof fn a_word_is_one_piece(word: Seq<char>, separator: char)
    requires
        !word.contains(separator),
    ensures
        pieces(word, separator) == seq![word],
    decreases word.len(),
{
    if word.len() > 0 {
        let rest = word.drop_last();
        assert(!rest.contains(separator)) by {
            if rest.contains(separator) {
                let at = choose|at: int| 0 <= at < rest.len() && rest[at] == separator;
                assert(word[at] == separator);
            }
        }
        a_word_is_one_piece(rest, separator);
        assert(word[word.len() - 1] != separator);
        assert(rest.push(word.last()) =~= word);
        assert(pieces(word, separator) =~= seq![word]);
    }
}

spec fn stands_inside(text: Seq<char>, separator: char, word: Seq<char>) -> bool {
    exists|from: int, to: int|
        to < text.len() && #[trigger] stands_at(text, separator, word, from, to)
}

proof fn lemma_pieces_stand(text: Seq<char>, separator: char)
    ensures
        pieces(text, separator).len() > 0,
        forall|k: int|
            0 <= k < pieces(text, separator).len() - 1 ==> stands_inside(
                text,
                separator,
                #[trigger] pieces(text, separator)[k],
            ),
        exists|from: int| #[trigger]
            stands_at(text, separator, pieces(text, separator).last(), from, text.len() as int),
    decreases text.len(),
{
    let now = pieces(text, separator);
    if text.len() == 0 {
        assert(text.subrange(0, 0) =~= text);
        assert(stands_at(text, separator, now.last(), 0, 0));
    } else {
        let rest = text.drop_last();
        let before = pieces(rest, separator);
        lemma_pieces_stand(rest, separator);
        let start = choose|from: int| #[trigger]
            stands_at(rest, separator, before.last(), from, rest.len() as int);
        let end = text.len() as int;
        if text.last() == separator {
            assert(text.subrange(start, end - 1) =~= rest.subrange(start, end - 1));
            assert(stands_at(text, separator, before.last(), start, end - 1));
            assert(text.subrange(end, end) =~= seq![]);
            assert(stands_at(text, separator, now.last(), end, end));
        } else {
            assert(text.subrange(start, end) =~= rest.subrange(start, end - 1).push(text.last()));
            assert(stands_at(text, separator, now.last(), start, end));
        }
        assert forall|k: int| 0 <= k < now.len() - 1 implies stands_inside(
            text,
            separator,
            #[trigger] now[k],
        ) by {
            assert(now[k] == before[k]);
            if k < before.len() - 1 {
                let (from, to) = choose|from: int, to: int|
                    to < rest.len() && #[trigger] stands_at(rest, separator, before[k], from, to);
                assert(text.subrange(from, to) =~= rest.subrange(from, to));
                assert(stands_at(text, separator, now[k], from, to));
            }
        }
    }
}

/// The pieces of a text are its words: all of them, and nothing else.
pub proof fn pieces_are_the_words(text: Seq<char>, separator: char, word: Seq<char>)
    ensures
        pieces(text, separator).contains(word) <==> is_word_of(text, separator, word),
{
    let all = pieces(text, separator);
    pieces_hold_no_separator(text, separator);
    lemma_pieces_stand(text, separator);
    if all.contains(word) {
        let k = choose|k: int| 0 <= k < all.len() && all[k] == word;
        if k < all.len() - 1 {
            let (from, to) = choose|from: int, to: int|
                to < text.len() && #[trigger] stands_at(text, separator, all[k], from, to);
            assert(stands_at(text, separator, word, from, to));
        } else {
            let from = choose|from: int| #[trigger]
                stands_at(text, separator, all.last(), from, text.len() as int);
            assert(stands_at(text, separator, word, from, text.len() as int));
        }
    }
    if is_word_of(text, separator, word) {
        let (from, to) = choose|from: int, to: int| #[trigger]
            stands_at(text, separator, word, from, to);
        a_word_is_one_piece(word, separator);
        let tail = text.skip(from);
        if to == text.len() {
            assert(tail =~= word);
        } else {
            let right = text.skip(to + 1);
            assert(tail =~= word.push(separator) + right);
            pieces_of_a_join(word, separator, right);
        }
        assert(pieces(tail, separator)[0] == word);
        pieces_hold_no_separator(tail, separator);
        if from == 0 {
            assert(tail =~= text);
            assert(all[0] == word);
        } else {
            let left = text.take(from - 1);
            assert(left.push(separator) + tail =~= text);
            pieces_of_a_join(left, separator, tail);
            assert(all[pieces(left, separator).len() as int] == word);
        }
    }
}

/// What a text is split into is its pieces, each character for character: the
/// words of it, in their order.
pub proof fn split_gives_the_words(
    text: &str,
    separator: char,
    list: Vec<Vec<char>>,
    word: Seq<char>,
)
    requires
        call_ensures(split, (text, separator), list),
    ensures
        joined(Seq::new(list@.len(), |i: int| list@[i]@), separator) == text@,
        (exists|i: int| 0 <= i < list@.len() && #[trigger] list@[i]@ == word) <==> is_word_of(
            text@,
            separator,
            word,
        ),
{
    let all = pieces(text@, separator);
    assert(Seq::new(list@.len(), |i: int| list@[i]@) =~= all);
    joining_undoes_splitting(text@, separator);
    pieces_are_the_words(text@, separator, word);
    assert forall|i: int| 0 <= i < list@.len() implies #[trigger] list@[i]@ == all[i] by {}
    if all.contains(word) {
        let i = choose|i: int| 0 <= i < all.len() && all[i] == word;
        assert(list@[i]@ == word);
    }
}

} // verus!
