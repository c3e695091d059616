//! Small operations on text.
use vstd::prelude::*;
use vstd::string::*;

verus! {

/// The texts of a list of strings.
pub open spec fn texts(list: Seq<String>) -> Seq<Seq<char>> {
    Seq::new(list.len(), |i: int| list[i]@)
}

pub open spec fn digit_char(d: nat) -> char {
    if d == 0 {
        '0'
    } else if d == 1 {
        '1'
    } else if d == 2 {
        '2'
    } else if d == 3 {
        '3'
    } else if d == 4 {
        '4'
    } else if d == 5 {
        '5'
    } else if d == 6 {
        '6'
    } else if d == 7 {
        '7'
    } else if d == 8 {
        '8'
    } else {
        '9'
    }
}

/// A number in decimal digits, without leading zeros.
pub open spec fn decimal_text(n: nat) -> Seq<char>
    decreases n,
{
    if n < 10 {
        seq![digit_char(n)]
    } else {
        decimal_text(n / 10).push(digit_char(n % 10))
    }
}

fn digit(d: u16) -> (text: &'static str)
    requires
        d < 10,
    ensures
        text@ == seq![digit_char(d as nat)],
{
    proof {
        reveal_strlit("0");
        reveal_strlit("1");
        reveal_strlit("2");
        reveal_strlit("3");
        reveal_strlit("4");
        reveal_strlit("5");
        reveal_strlit("6");
        reveal_strlit("7");
        reveal_strlit("8");
        reveal_strlit("9");
    }
    let text = match d {
        0 => "0",
        1 => "1",
        2 => "2",
        3 => "3",
        4 => "4",
        5 => "5",
        6 => "6",
        7 => "7",
        8 => "8",
        _ => "9",
    };
    assert(text@ =~= seq![digit_char(d as nat)]);
    text
}

/// Writes a number in decimal digits.
pub fn decimal(n: u16) -> (text: String)
    ensures
        text@ == decimal_text(n as nat),
    decreases n,
{
    if n < 10 {
        digit(n).to_string()
    } else {
        let mut text = decimal(n / 10);
        text.append(digit(n % 10));
        assert(text@ =~= decimal_text(n as nat));
        text
    }
}

/// The number that decimal digits write.
pub open spec fn value(s: Seq<char>) -> int
    decreases s.len(),
{
    if s.len() == 0 {
        0
    } else {
        value(s.drop_last()) * 10 + (s.last() as u32 - '0' as u32)
    }
}

/// A number written in decimal reads back as that number. It is written in digits alone, and none
/// but 0 itself starts with a 0.
pub proof fn law_decimal_reads_back(n: nat)
    ensures
        value(decimal_text(n)) == n,
        decimal_text(n).len() > 0,
        forall|i: int|
            0 <= i < decimal_text(n).len() ==> '0' as u32 <= (#[trigger] decimal_text(n)[i]) as u32
                <= '9' as u32,
        decimal_text(n)[0] == '0' ==> n == 0 && decimal_text(n).len() == 1,
    decreases n,
{
    let text = decimal_text(n);
    if n < 10 {
        reveal_with_fuel(value, 2);
    } else {
        law_decimal_reads_back(n / 10);
        let high = decimal_text(n / 10);
        assert(text.drop_last() =~= high);
        assert forall|i: int| 0 <= i < text.len() implies '0' as u32 <= (#[trigger] text[i]) as u32
            <= '9' as u32 by {
            if i < high.len() {
                assert(text[i] == high[i]);
            }
        }
        assert(text[0] == high[0]);
    }
}

/// The pieces of a text between its spaces; one more than there are spaces.
pub open spec fn words(s: Seq<char>) -> Seq<Seq<char>>
    decreases s.len(),
{
    if s.len() == 0 {
        seq![Seq::empty()]
    } else {
        let before = words(s.drop_last());
        if s.last() == ' ' {
            before.push(Seq::empty())
        } else {
            before.drop_last().push(before.last().push(s.last()))
        }
    }
}

proof fn lemma_words_some(s: Seq<char>)
    ensures
        words(s).len() > 0,
    decreases s.len(),
{
    if s.len() > 0 {
        lemma_words_some(s.drop_last());
    }
}

/// The pieces, put together again with single spaces.
pub open spec fn joined(pieces: Seq<Seq<char>>) -> Seq<char>
    decreases pieces.len(),
{
    if pieces.len() == 0 {
        Seq::empty()
    } else if pieces.len() == 1 {
        pieces[0]
    } else {
        joined(pieces.drop_last()) + seq![' '] + pieces.last()
    }
}

/// Splitting a text at its spaces loses nothing but the spaces: put together with single spaces, the
/// pieces are the text again, and no piece holds a space.
pub proof fn law_words_make_the_text(s: Seq<char>)
    ensures
        joined(words(s)) == s,
        forall|i: int| 0 <= i < words(s).len() ==> !(#[trigger] words(s)[i]).contains(' '),
    decreases s.len(),
{
    lemma_words_some(s);
    if s.len() > 0 {
        let rest = s.drop_last();
        let before = words(rest);
        law_words_make_the_text(rest);
        lemma_words_some(rest);
        let all = words(s);
        if s.last() == ' ' {
            assert(all.drop_last() =~= before);
            assert(joined(all) =~= s);
        } else {
            let last = before.last().push(s.last());
            assert(all.drop_last() =~= before.drop_last());
            if before.len() > 1 {
                let front = joined(before.drop_last()) + seq![' '];
                assert(front + before.last() == rest);
                assert(front + last =~= rest.push(s.last()));
            }
            assert(joined(all) =~= s);
            assert forall|i: int| 0 <= i < all.len() implies !(#[trigger] all[i]).contains(' ') by {
                if i < all.len() - 1 {
                    assert(all[i] == before[i]);
                } else {
                    assert(!before[before.len() - 1].contains(' '));
                    if last.contains(' ') {
                        let k = choose|k: int| 0 <= k < last.len() && last[k] == ' ';
                        assert(before.last()[k] == ' ');
                    }
                }
            }
        }
    }
}

/// Two texts with a space between them are split each on its own.
pub proof fn lemma_words_append(a: Seq<char>, b: Seq<char>)
    ensures
        words(a + seq![' '] + b) == words(a) + words(b),
    decreases b.len(),
{
    let s = a + seq![' '] + b;
    if b.len() == 0 {
        assert(s.drop_last() =~= a);
        assert(words(s) =~= words(a) + words(b));
    } else {
        let rest = b.drop_last();
        lemma_words_append(a, rest);
        lemma_words_some(rest);
        assert(s.drop_last() =~= a + seq![' '] + rest);
        assert(words(s) =~= words(a) + words(b));
    }
}

/// A text without spaces is one piece.
pub proof fn lemma_words_plain(s: Seq<char>)
    requires
        !s.contains(' '),
    ensures
        words(s) == seq![s],
    decreases s.len(),
{
    if s.len() > 0 {
        let rest = s.drop_last();
        assert forall|i: int| 0 <= i < rest.len() implies rest[i] != ' ' by {
            assert(s[i] == rest[i]);
        }
        lemma_words_plain(rest);
        assert(s[s.len() - 1] != ' ');
        assert(rest.push(s.last()) =~= s);
    } else {
        assert(s =~= Seq::empty());
    }
    assert(words(s) =~= seq![s]);
}

/// Splits a text at its spaces.
pub fn split_spaces(text: &str) -> (pieces: Vec<String>)
    ensures
        texts(pieces@) == words(text@),
{
    let len: usize = text.unicode_len();
    let mut pieces: Vec<String> = Vec::new();
    let mut current = String::new();
    let mut i: usize = 0;
    assert(text@.take(0) =~= Seq::empty());
    assert(texts(pieces@).push(current@) =~= words(text@.take(0)));
    while i < len
        invariant
            i <= len == text@.len(),
            texts(pieces@).push(current@) == words(text@.take(i as int)),
        decreases len - i,
    {
        let ghost before = texts(pieces@).push(current@);
        let ghost read = text@.take(i + 1);
        assert(read.drop_last() =~= text@.take(i as int));
        assert(before.drop_last() =~= texts(pieces@));
        if text.get_char(i) == ' ' {
            pieces.push(current);
            current = String::new();
            assert(texts(pieces@) =~= before);
            assert(texts(pieces@).push(current@) =~= words(read));
        } else {
            current.append(text.substring_char(i, i + 1));
            assert(current@ =~= before.last().push(read.last()));
            assert(texts(pieces@).push(current@) =~= words(read));
        }
        i = i + 1;
    }
    assert(text@.take(i as int) =~= text@);
    let ghost before = texts(pieces@).push(current@);
    pieces.push(current);
    assert(texts(pieces@) =~= before);
    pieces
}

/// Whether a character is white space, as Unicode has it.
pub open spec fn is_white(c: char) -> bool {
    let n = c as u32;
    ||| 0x9 <= n <= 0xd
    ||| n == 0x20 || n == 0x85 || n == 0xa0 || n == 0x1680
    ||| 0x2000 <= n <= 0x200a
    ||| n == 0x2028 || n == 0x2029 || n == 0x202f || n == 0x205f || n == 0x3000
}

/// Says whether a character is white space.
pub fn white(c: char) -> (r: bool)
    ensures
        r == is_white(c),
{
    let n: u32 = c as u32;
    (0x9 <= n && n <= 0xd) || n == 0x20 || n == 0x85 || n == 0xa0 || n == 0x1680 || (0x2000 <= n
        && n <= 0x200a) || n == 0x2028 || n == 0x2029 || n == 0x202f || n == 0x205f || n == 0x3000
}

/// A text without its white space.
pub open spec fn squeezed(s: Seq<char>) -> Seq<char> {
    s.filter(|c: char| !is_white(c))
}

/// Dropping white space goes character by character: white space goes, every other character stays
/// as it is, and what is behind a character is dealt with on its own.
pub proof fn law_squeezing(a: Seq<char>, c: char, b: Seq<char>)
    ensures
        squeezed(a + seq![c] + b) == if is_white(c) {
            squeezed(a) + squeezed(b)
        } else {
            squeezed(a) + seq![c] + squeezed(b)
        },
        squeezed(Seq::empty()) == Seq::<char>::empty(),
{
    let keep = |c: char| !is_white(c);
    Seq::filter_distributes_over_add(a + seq![c], b, keep);
    Seq::filter_distributes_over_add(a, seq![c], keep);
    reveal(Seq::filter);
    let one = seq![c];
    let none = one.drop_last();
    assert(none =~= Seq::empty());
    assert(none.filter(keep) =~= none);
    assert(one.last() == c);
    assert(none.push(c) =~= one);
    assert(one.filter(keep) =~= if is_white(c) {
        Seq::empty()
    } else {
        seq![c]
    });
    assert(squeezed(a) + Seq::<char>::empty() =~= squeezed(a));
}

/// A text without white space stays as it is.
pub proof fn law_squeezed_stays(s: Seq<char>)
    requires
        forall|i: int| 0 <= i < s.len() ==> !is_white(#[trigger] s[i]),
    ensures
        squeezed(s) == s,
    decreases s.len(),
{
    reveal(Seq::filter);
    if s.len() > 0 {
        let rest = s.drop_last();
        assert forall|i: int| 0 <= i < rest.len() implies !is_white(#[trigger] rest[i]) by {
            assert(!is_white(s[i]));
        }
        law_squeezed_stays(rest);
        assert(!is_white(s[s.len() - 1]));
        assert(rest.push(s.last()) =~= s);
    }
}

/// Drops the white space of a text.
pub fn squeeze(text: &str) -> (r: String)
    ensures
        r@ == squeezed(text@),
{
    let len: usize = text.unicode_len();
    let mut r = String::new();
    let mut i: usize = 0;
    reveal(Seq::filter);
    assert(text@.take(0) =~= Seq::empty());
    while i < len
        invariant
            i <= len == text@.len(),
            r@ == squeezed(text@.take(i as int)),
        decreases len - i,
    {
        reveal(Seq::filter);
        assert(text@.take(i + 1).drop_last() =~= text@.take(i as int));
        if !white(text.get_char(i)) {
            r.append(text.substring_char(i, i + 1));
        }
        i = i + 1;
        assert(r@ =~= squeezed(text@.take(i as int)));
    }
    assert(text@.take(i as int) =~= text@);
    r
}

/// A text with every colon and space behind it replaced by an equals sign, from left to right.
pub open spec fn assigned(s: Seq<char>) -> Seq<char>
    decreases s.len(),
{
    if s.len() == 0 {
        s
    } else if s.len() >= 2 && s[0] == ':' && s[1] == ' ' {
        seq!['='] + assigned(s.skip(2))
    } else {
        seq![s[0]] + assigned(s.skip(1))
    }
}

/// A colon and a space behind it become an equals sign, wherever they stand, and what is before and
/// behind them is dealt with on its own.
pub proof fn law_assigning(a: Seq<char>, b: Seq<char>)
    ensures
        assigned(a + seq![':', ' '] + b) == assigned(a) + seq!['='] + assigned(b),
    decreases a.len(),
{
    let s = a + seq![':', ' '] + b;
    if a.len() == 0 {
        assert(s.skip(2) =~= b);
        assert(a =~= Seq::empty());
        assert(assigned(s) =~= assigned(a) + seq!['='] + assigned(b));
    } else if a.len() >= 2 && a[0] == ':' && a[1] == ' ' {
        law_assigning(a.skip(2), b);
        assert(s.skip(2) =~= a.skip(2) + seq![':', ' '] + b);
        assert(assigned(s) =~= assigned(a) + seq!['='] + assigned(b));
    } else {
        law_assigning(a.skip(1), b);
        assert(s.skip(1) =~= a.skip(1) + seq![':', ' '] + b);
        assert(s[1] == if a.len() >= 2 {
            a[1]
        } else {
            ':'
        });
        assert(assigned(s) =~= assigned(a) + seq!['='] + assigned(b));
    }
}

/// A text in which no colon has a space behind it stays as it is.
pub proof fn law_assigned_stays(s: Seq<char>)
    requires
        forall|i: int| 0 <= i < s.len() - 1 && #[trigger] s[i] == ':' ==> s[i + 1] != ' ',
    ensures
        assigned(s) == s,
    decreases s.len(),
{
    if s.len() > 0 {
        let rest = s.skip(1);
        assert forall|i: int| 0 <= i < rest.len() - 1 && #[trigger] rest[i] == ':' implies rest[i
            + 1] != ' ' by {
            assert(s[i + 1] == ':');
        }
        law_assigned_stays(rest);
        assert(s.len() >= 2 && s[0] == ':' ==> s[1] != ' ') by {
            assert(s.len() >= 2 && s[0int] == ':' ==> s[0int + 1] != ' ');
        }
        assert(seq![s[0]] + rest =~= s);
    }
}

/// Replaces every colon and space behind it by an equals sign.
pub fn assign(text: &str) -> (r: String)
    ensures
        r@ == assigned(text@),
{
    let len: usize = text.unicode_len();
    let mut r = String::new();
    let mut i: usize = 0;
    assert(text@.skip(0) =~= text@);
    assert(r@ + assigned(text@.skip(0)) =~= assigned(text@));
    proof {
        reveal_strlit("=");
    }
    while i < len
        invariant
            i <= len == text@.len(),
            r@ + assigned(text@.skip(i as int)) == assigned(text@),
            "="@ == seq!['='],
        decreases len - i,
    {
        let ghost before = r@;
        let ghost rest = text@.skip(i as int);
        if i + 1 < len && text.get_char(i) == ':' && text.get_char(i + 1) == ' ' {
            r.append("=");
            assert(rest.skip(2) =~= text@.skip(i + 2));
            assert(r@ + assigned(text@.skip(i + 2)) =~= before + assigned(rest));
            i = i + 2;
        } else {
            r.append(text.substring_char(i, i + 1));
            assert(rest.skip(1) =~= text@.skip(i + 1));
            assert(text@.subrange(i as int, i + 1) =~= seq![rest[0]]);
            assert(r@ + assigned(text@.skip(i + 1)) =~= before + assigned(rest));
            i = i + 1;
        }
    }
    assert(text@.skip(i as int) =~= Seq::empty());
    assert(r@ =~= assigned(text@));
    r
}

} // verus!
