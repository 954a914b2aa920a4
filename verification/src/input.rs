//! Parsing of the text typed into the client's input box.
//!
//! For a proof request the user types a leaf value and a leaf index as
//! decimal numbers separated by a space (`"20 1"`).  The text is split at
//! every space, and each piece is read as a `u8`; a piece that is not a
//! decimal `u8` counts as 0.
use vstd::prelude::*;
use vstd::string::*;

verus! {

/// The pieces of `s` between its spaces, in order.  Two spaces in a row, or
/// a space at either end, give an empty piece; the empty text is one empty
/// piece.
pub open spec fn split_spaces(s: Seq<char>) -> Seq<Seq<char>>
    decreases s.len(),
{
    if s.len() == 0 {
        seq![Seq::<char>::empty()]
    } else {
        let prev = split_spaces(s.drop_last());
        if s.last() == ' ' {
            prev.push(Seq::<char>::empty())
        } else {
            prev.update(prev.len() - 1, prev.last().push(s.last()))
        }
    }
}

/// A decimal digit.
pub open spec fn is_digit(c: char) -> bool {
    '0' <= c && c <= '9'
}

/// The value of a decimal numeral whose characters are all digits.
pub open spec fn decimal_value(d: Seq<char>) -> nat
    decreases d.len(),
{
    if d.len() == 0 {
        0
    } else {
        decimal_value(d.drop_last()) * 10 + ((d.last() as nat) - ('0' as nat)) as nat
    }
}

/// The digits of a numeral: the text without one leading `+`.
pub open spec fn unsigned_digits(t: Seq<char>) -> Seq<char> {
    if t.len() > 0 && t[0] == '+' {
        t.drop_first()
    } else {
        t
    }
}

/// The `u8` that `t` denotes as `str::parse::<u8>` reads it: an optional `+`
/// and then at least one decimal digit, with a value below 256.
pub open spec fn parse_u8_spec(t: Seq<char>) -> Option<u8> {
    let d = unsigned_digits(t);
    if d.len() > 0 && (forall|i: int| 0 <= i < d.len() ==> is_digit(#[trigger] d[i]))
        && decimal_value(d) <= 255 {
        Some(decimal_value(d) as u8)
    } else {
        None
    }
}

/// The value of one piece of the input: the `u8` it denotes, or 0.
pub open spec fn piece_value(t: Seq<char>) -> u8 {
    match parse_u8_spec(t) {
        Some(v) => v,
        None => 0,
    }
}

/// The values of all pieces of the input text, in order.
pub open spec fn leaf_values(s: Seq<char>) -> Seq<u8> {
    split_spaces(s).map_values(|t: Seq<char>| piece_value(t))
}

/// There is always at least one piece.
pub proof fn lemma_split_spaces_nonempty(s: Seq<char>)
    ensures
        split_spaces(s).len() >= 1,
    decreases s.len(),
{
    if s.len() > 0 {
        lemma_split_spaces_nonempty(s.drop_last());
    }
}

/// The text has at least two pieces exactly when it holds a space.
pub proof fn lemma_two_pieces_iff_space(s: Seq<char>)
    ensures
        split_spaces(s).len() >= 2 <==> s.contains(' '),
    decreases s.len(),
{
    if s.len() > 0 {
        lemma_two_pieces_iff_space(s.drop_last());
        lemma_split_spaces_nonempty(s.drop_last());
        if s.drop_last().contains(' ') {
            let i: int = choose|i: int| 0 <= i < s.drop_last().len() && s.drop_last()[i] == ' ';
            assert(s[i] == ' ');
        }
        if s.contains(' ') && s.last() != ' ' {
            let i: int = choose|i: int| 0 <= i < s.len() && s[i] == ' ';
            assert(i < s.len() - 1);
            assert(s.drop_last()[i] == ' ');
        }
    } else {
        assert(!s.contains(' '));
    }
}

/// The deep contents of a list of character vectors.
pub open spec fn char_lists(v: Seq<Vec<char>>) -> Seq<Seq<char>> {
    v.map_values(|t: Vec<char>| t@)
}

/// Splits `s` at every space.
pub fn split_on_spaces(s: &str) -> (pieces: Vec<Vec<char>>)
    ensures
        char_lists(pieces@) == split_spaces(s@),
{
    let n: usize = s.unicode_len();
    let mut done: Vec<Vec<char>> = Vec::new();
    let mut cur: Vec<char> = Vec::new();
    let mut i: usize = 0;
    assert(s@.take(0) =~= Seq::<char>::empty());
    while i < n
        invariant
            n == s@.len(),
            i <= n,
            char_lists(done@).push(cur@) == split_spaces(s@.take(i as int)),
        decreases n - i,
    {
        let c = s.get_char(i);
        proof {
            lemma_split_spaces_nonempty(s@.take(i as int));
            assert(s@.take(i as int + 1).drop_last() =~= s@.take(i as int));
        }
        if c == ' ' {
            let finished = cur;
            done.push(finished);
            cur = Vec::new();
            assert(char_lists(done@).push(cur@) =~= split_spaces(s@.take(i as int + 1)));
        } else {
            cur.push(c);
            assert(char_lists(done@).push(cur@) =~= split_spaces(s@.take(i as int + 1)));
        }
        i = i + 1;
    }
    assert(s@.take(n as int) =~= s@);
    done.push(cur);
    assert(char_lists(done@) =~= split_spaces(s@));
    done
}


proof fn lemma_decimal_value_step(d: Seq<char>, k: int)
    requires
        0 <= k < d.len(),
    ensures
        decimal_value(d.take(k + 1)) == decimal_value(d.take(k)) * 10 + ((d[k] as nat) - ('0' as nat)) as nat,
{
    assert(d.take(k + 1).drop_last() =~= d.take(k));
}

/// Reads `token` as `str::parse::<u8>` does.
pub fn parse_u8(token: &Vec<char>) -> (r: Option<u8>)
    ensures
        r == parse_u8_spec(token@),
{
    let n: usize = token.len();
    let mut start: usize = 0;
    if n > 0 && token[0] == '+' {
        start = 1;
    }
    let ghost d = unsigned_digits(token@);
    assert(d =~= token@.subrange(start as int, n as int));
    if start == n {
        return None;
    }
    // `acc` is the value of the digits read so far, held at 256 once it passes 255.
    let mut acc: u16 = 0;
    let mut i: usize = start;
    assert(d.take(0) =~= Seq::<char>::empty());
    while i < n
        invariant
            start <= i <= n,
            n == token@.len(),
            d == token@.subrange(start as int, n as int),
            d == unsigned_digits(token@),
            forall|k: int| 0 <= k < i - start ==> is_digit(#[trigger] d[k]),
            acc <= 256,
            acc == (if decimal_value(d.take(i - start)) <= 256 {
                decimal_value(d.take(i - start))
            } else {
                256
            }),
        decreases n - i,
    {
        let c = token[i];
        if !('0' <= c && c <= '9') {
            assert(!is_digit(d[i - start]));
            return None;
        }
        let digit: u16 = ((c as u32) - ('0' as u32)) as u16;
        proof {
            lemma_decimal_value_step(d, i - start);
        }
        if acc * 10 + digit > 256 {
            acc = 256;
        } else {
            acc = acc * 10 + digit;
        }
        assert(d.take(i + 1 - start) == d.take(i - start + 1));
        i = i + 1;
    }
    assert(d.take(n - start) =~= d);
    if acc <= 255 {
        Some(acc as u8)
    } else {
        None
    }
}

/// The leaf value and leaf index typed by the user: the value of each piece of
/// `input`, with 0 for a piece that is not a decimal `u8`.
pub fn parse_leaf_input(input: &str) -> (values: Vec<u8>)
    ensures
        values@ == leaf_values(input@),
{
    let pieces = split_on_spaces(input);
    let mut values: Vec<u8> = Vec::new();
    let mut i: usize = 0;
    while i < pieces.len()
        invariant
            i <= pieces@.len(),
            char_lists(pieces@) == split_spaces(input@),
            values@ =~= split_spaces(input@).take(i as int).map_values(|t: Seq<char>| piece_value(t)),
        decreases pieces@.len() - i,
    {
        let v: u8 = match parse_u8(&pieces[i]) {
            Some(v) => v,
            None => 0,
        };
        proof {
            assert(pieces@[i as int]@ == split_spaces(input@)[i as int]);
        }
        values.push(v);
        assert(split_spaces(input@).take(i + 1) =~= split_spaces(input@).take(i as int).push(split_spaces(input@)[i as int]));
        i = i + 1;
    }
    assert(split_spaces(input@).take(pieces@.len() as int) =~= split_spaces(input@));
    values
}


/// A piece's value is the `u8` that `str::parse::<u8>` reads from it, and 0
/// when that read fails.
pub proof fn lemma_piece_value_is_parsed_value(t: Seq<char>)
    ensures
        forall|v: u8| parse_u8_spec(t) == Some(v) ==> piece_value(t) == v,
        parse_u8_spec(t) is None ==> piece_value(t) == 0,
{
}

/// The decimal digit for `d` (taken below 10).
pub open spec fn digit_char(d: nat) -> char {
    if d == 0 {
        '0'
    } else if d == 1 {
        '1'
    } else if d == 2 {
        '2'
    } else if d == 3 {
        '3'
    } else if d == 4 {
        '4'
    } else if d == 5 {
        '5'
    } else if d == 6 {
        '6'
    } else if d == 7 {
        '7'
    } else if d == 8 {
        '8'
    } else {
        '9'
    }
}

/// The usual decimal numeral of `n`: no sign, no leading zero.
pub open spec fn numeral(n: nat) -> Seq<char>
    decreases n,
{
    if n < 10 {
        seq![digit_char(n)]
    } else {
        numeral(n / 10).push(digit_char(n % 10))
    }
}

proof fn lemma_digit_char_value(d: nat)
    requires
        d < 10,
    ensures
        is_digit(digit_char(d)),
        (digit_char(d) as nat) - ('0' as nat) == d,
{
}

/// A numeral is a non-empty string of digits, without spaces, worth `n`.
pub proof fn lemma_numeral_value(n: nat)
    ensures
        numeral(n).len() > 0,
        forall|i: int| 0 <= i < numeral(n).len() ==> is_digit(#[trigger] numeral(n)[i]),
        !numeral(n).contains(' '),
        decimal_value(numeral(n)) == n,
    decreases n,
{
    lemma_digit_char_value(n % 10);
    if n >= 10 {
        lemma_numeral_value(n / 10);
        let prev = numeral(n / 10);
        assert(n == (n / 10) * 10 + n % 10);
        assert(numeral(n).drop_last() =~= prev);
        assert(numeral(n) =~= prev.push(digit_char(n % 10)));
        assert(numeral(n).last() == digit_char(n % 10));
        assert(decimal_value(numeral(n)) == decimal_value(prev) * 10 + n % 10);
        assert forall|i: int| 0 <= i < numeral(n).len() implies is_digit(#[trigger] numeral(n)[i]) by {
            if i < prev.len() {
                assert(numeral(n)[i] == prev[i]);
            }
        }
        if numeral(n).contains(' ') {
            let i = choose|i: int| 0 <= i < numeral(n).len() && numeral(n)[i] == ' ';
            assert(is_digit(numeral(n)[i]));
        }
    } else {
        if numeral(n).contains(' ') {
            let i = choose|i: int| 0 <= i < numeral(n).len() && numeral(n)[i] == ' ';
            assert(i == 0);
        }
        assert(numeral(n).drop_last() =~= Seq::<char>::empty());
        assert(numeral(n).last() == digit_char(n));
        assert(decimal_value(numeral(n)) == decimal_value(Seq::<char>::empty()) * 10 + n % 10);
    }
}

/// `str::parse::<u8>` reads back the numeral of every `u8`.
pub proof fn lemma_numeral_parses(n: u8)
    ensures
        parse_u8_spec(numeral(n as nat)) == Some(n),
{
    lemma_numeral_value(n as nat);
    assert(is_digit(numeral(n as nat)[0]));
    assert(unsigned_digits(numeral(n as nat)) == numeral(n as nat));
}

/// Appending text without spaces extends the last piece.
pub proof fn lemma_split_spaces_append_word(s: Seq<char>, t: Seq<char>)
    requires
        !t.contains(' '),
    ensures
        split_spaces(s + t) == split_spaces(s).update(
            split_spaces(s).len() - 1,
            split_spaces(s).last() + t,
        ),
    decreases t.len(),
{
    lemma_split_spaces_nonempty(s);
    if t.len() == 0 {
        assert(s + t =~= s);
        assert(split_spaces(s).last() + t =~= split_spaces(s).last());
        assert(split_spaces(s).update(split_spaces(s).len() - 1, split_spaces(s).last() + t)
            =~= split_spaces(s));
    } else {
        let t2 = t.drop_last();
        let c = t.last();
        assert(!t2.contains(' ')) by {
            if t2.contains(' ') {
                let i = choose|i: int| 0 <= i < t2.len() && t2[i] == ' ';
                assert(t[i] == ' ');
            }
        }
        if c == ' ' {
            assert(t[t.len() - 1] == ' ');
            assert(t.contains(' '));
        }
        lemma_split_spaces_append_word(s, t2);
        assert((s + t).drop_last() =~= s + t2);
        assert((s + t).last() == c);
        assert(split_spaces(s).last() + t2 + seq![c] =~= split_spaces(s).last() + t);
        let prev = split_spaces(s + t2);
        let l = split_spaces(s).len();
        assert(prev.len() == l);
        assert(prev.last() == split_spaces(s).last() + t2);
        assert(prev.last().push(c) =~= split_spaces(s).last() + t);
        assert(split_spaces(s + t) == prev.update(prev.len() - 1, prev.last().push(c)));
        assert(split_spaces(s + t) =~= split_spaces(s).update(
            split_spaces(s).len() - 1,
            split_spaces(s).last() + t,
        ));
    }
}

/// Two words joined by one space split into exactly those two words.
pub proof fn lemma_split_two_words(u: Seq<char>, w: Seq<char>)
    requires
        !u.contains(' '),
        !w.contains(' '),
    ensures
        split_spaces(u + seq![' '] + w) == seq![u, w],
{
    let e = Seq::<char>::empty();
    lemma_split_spaces_append_word(e, u);
    assert(e + u =~= u);
    assert(split_spaces(e) =~= seq![e]);
    assert(split_spaces(u) =~= seq![u]);
    let us = u + seq![' '];
    assert(us.drop_last() =~= u);
    assert(split_spaces(us) =~= seq![u, e]);
    lemma_split_spaces_append_word(us, w);
    assert(e + w =~= w);
    assert(split_spaces(us + w) =~= seq![u, w]);
}

/// Typing the numerals of two bytes separated by a space gives those bytes,
/// in that order.
pub proof fn lemma_two_numerals_read_back(a: u8, b: u8)
    ensures
        leaf_values(numeral(a as nat) + seq![' '] + numeral(b as nat)) == seq![a, b],
{
    lemma_numeral_value(a as nat);
    lemma_numeral_value(b as nat);
    lemma_numeral_parses(a);
    lemma_numeral_parses(b);
    lemma_split_two_words(numeral(a as nat), numeral(b as nat));
    assert(leaf_values(numeral(a as nat) + seq![' '] + numeral(b as nat)) =~= seq![a, b]);
}

} // verus!
