//! Character and string helpers: ASCII case folding, decimal numerals,
//! and splitting lines of text into space-separated tokens.
//!
//! Runs of consecutive spaces are collapsed when tokenizing, so no empty
//! token is ever produced.
use vstd::prelude::*;
use vstd::string::*;

verus! {

/// ASCII case folding of a single character: the twenty-six uppercase
/// letters map to their lowercase forms, every other character is unchanged.
pub open spec fn lower_char(c: char) -> char {
    if c == 'A' {
        'a'
    } else if c == 'B' {
        'b'
    } else if c == 'C' {
        'c'
    } else if c == 'D' {
        'd'
    } else if c == 'E' {
        'e'
    } else if c == 'F' {
        'f'
    } else if c == 'G' {
        'g'
    } else if c == 'H' {
        'h'
    } else if c == 'I' {
        'i'
    } else if c == 'J' {
        'j'
    } else if c == 'K' {
        'k'
    } else if c == 'L' {
        'l'
    } else if c == 'M' {
        'm'
    } else if c == 'N' {
        'n'
    } else if c == 'O' {
        'o'
    } else if c == 'P' {
        'p'
    } else if c == 'Q' {
        'q'
    } else if c == 'R' {
        'r'
    } else if c == 'S' {
        's'
    } else if c == 'T' {
        't'
    } else if c == 'U' {
        'u'
    } else if c == 'V' {
        'v'
    } else if c == 'W' {
        'w'
    } else if c == 'X' {
        'x'
    } else if c == 'Y' {
        'y'
    } else if c == 'Z' {
        'z'
    } else {
        c
    }
}

/// ASCII case folding of a whole character sequence.
pub open spec fn lower(s: Seq<char>) -> Seq<char> {
    s.map_values(|c: char| lower_char(c))
}

/// Folds one character to lowercase.
pub fn lower_char_exec(c: char) -> (r: char)
    ensures
        r == lower_char(c),
{
    match c {
        'A' => 'a',
        'B' => 'b',
        'C' => 'c',
        'D' => 'd',
        'E' => 'e',
        'F' => 'f',
        'G' => 'g',
        'H' => 'h',
        'I' => 'i',
        'J' => 'j',
        'K' => 'k',
        'L' => 'l',
        'M' => 'm',
        'N' => 'n',
        'O' => 'o',
        'P' => 'p',
        'Q' => 'q',
        'R' => 'r',
        'S' => 's',
        'T' => 't',
        'U' => 'u',
        'V' => 'v',
        'W' => 'w',
        'X' => 'x',
        'Y' => 'y',
        'Z' => 'z',
        _ => c,
    }
}

/// Two strings are equal up to ASCII case.
pub fn eq_ignore_case(a: &str, b: &str) -> (r: bool)
    ensures
        r == (lower(a@) == lower(b@)),
{
    let alen = a.unicode_len();
    let blen = b.unicode_len();
    if alen != blen {
        assert(lower(a@).len() != lower(b@).len());
        return false;
    }
    let mut i: usize = 0;
    while i < alen
        invariant
            i <= alen,
            alen == a@.len(),
            alen == b@.len(),
            forall|j: int| 0 <= j < i ==> lower_char(a@[j]) == lower_char(b@[j]),
        decreases alen - i,
    {
        let ca = a.get_char(i);
        let cb = b.get_char(i);
        if lower_char_exec(ca) != lower_char_exec(cb) {
            assert(lower(a@)[i as int] != lower(b@)[i as int]);
            return false;
        }
        i = i + 1;
    }
    assert(lower(a@) =~= lower(b@));
    true
}

/// The numeric value of a decimal digit character, or -1 for any other
/// character.
pub open spec fn digit_val(c: char) -> int {
    if c == '0' {
        0
    } else if c == '1' {
        1
    } else if c == '2' {
        2
    } else if c == '3' {
        3
    } else if c == '4' {
        4
    } else if c == '5' {
        5
    } else if c == '6' {
        6
    } else if c == '7' {
        7
    } else if c == '8' {
        8
    } else if c == '9' {
        9
    } else {
        -1
    }
}

/// Every character of the sequence is a decimal digit.
pub open spec fn all_digits(s: Seq<char>) -> bool {
    forall|i: int| 0 <= i < s.len() ==> digit_val(#[trigger] s[i]) >= 0
}

/// The number denoted by a sequence of decimal digit characters, most
/// significant digit first.
pub open spec fn dec_val(s: Seq<char>) -> int
    decreases s.len(),
{
    if s.len() == 0 {
        0
    } else {
        dec_val(s.drop_last()) * 10 + digit_val(s.last())
    }
}

/// A sequence of characters denotes a 16-bit number: nonempty, all decimal
/// digits, and within range.
pub open spec fn parses_as_u16(s: Seq<char>) -> bool {
    s.len() > 0 && all_digits(s) && dec_val(s) <= 0xffff
}

proof fn lemma_dec_val_nonneg(s: Seq<char>)
    requires
        all_digits(s),
    ensures
        dec_val(s) >= 0,
    decreases s.len(),
{
    if s.len() > 0 {
        assert(all_digits(s.drop_last())) by {
            assert(forall|i: int|
                0 <= i < s.len() - 1 ==> #[trigger] s.drop_last()[i] == s[i]);
        }
        lemma_dec_val_nonneg(s.drop_last());
    }
}

/// Once a prefix of a digit string exceeds the 16-bit range, the whole
/// string does too.
proof fn lemma_dec_val_prefix_grows(s: Seq<char>, i: int)
    requires
        all_digits(s),
        0 <= i <= s.len(),
    ensures
        dec_val(s) >= dec_val(s.take(i)),
    decreases s.len() - i,
{
    assert(all_digits(s.take(i))) by {
        assert(forall|j: int| 0 <= j < i ==> #[trigger] s.take(i)[j] == s[j]);
    }
    if i == s.len() {
        assert(s.take(i) =~= s);
    } else {
        lemma_dec_val_prefix_grows(s, i + 1);
        lemma_dec_val_nonneg(s.take(i));
        assert(s.take(i + 1).drop_last() =~= s.take(i));
        assert(s.take(i + 1).last() == s[i]);
        assert(dec_val(s.take(i + 1)) == dec_val(s.take(i)) * 10 + digit_val(s[i]));
    }
}

/// The numeric value of one decimal digit character, if it is one.
fn digit_val_exec(c: char) -> (r: Option<u16>)
    ensures
        match r {
            Some(d) => digit_val(c) == d as int && d < 10,
            None => digit_val(c) == -1,
        },
{
    match c {
        '0' => Some(0),
        '1' => Some(1),
        '2' => Some(2),
        '3' => Some(3),
        '4' => Some(4),
        '5' => Some(5),
        '6' => Some(6),
        '7' => Some(7),
        '8' => Some(8),
        '9' => Some(9),
        _ => None,
    }
}

/// Reads a nonnegative 16-bit decimal number; any other input gives `None`.
pub fn parse_u16(s: &str) -> (r: Option<u16>)
    ensures
        match r {
            Some(v) => parses_as_u16(s@) && v as int == dec_val(s@),
            None => !parses_as_u16(s@),
        },
{
    let len = s.unicode_len();
    if len == 0 {
        return None;
    }
    let mut acc: u32 = 0;
    let mut i: usize = 0;
    while i < len
        invariant
            0 < len == s@.len(),
            i <= len,
            all_digits(s@.take(i as int)),
            acc as int == dec_val(s@.take(i as int)),
            acc <= 0xffff,
        decreases len - i,
    {
        let c = s.get_char(i);
        match digit_val_exec(c) {
            None => {
                assert(!all_digits(s@)) by {
                    assert(digit_val(s@[i as int]) == -1);
                }
                return None;
            },
            Some(d) => {
                proof {
                    assert(s@.take(i + 1).drop_last() =~= s@.take(i as int));
                    assert(s@.take(i + 1).last() == s@[i as int]);
                    assert(forall|j: int|
                        0 <= j < i + 1 ==> #[trigger] s@.take(i + 1)[j] == s@[j]);
                }
                let next: u32 = acc * 10 + d as u32;
                if next > 0xffff {
                    proof {
                        if parses_as_u16(s@) {
                            lemma_dec_val_prefix_grows(s@, i + 1);
                        }
                    }
                    return None;
                }
                acc = next;
            },
        }
        i = i + 1;
    }
    assert(s@.take(len as int) =~= s@);
    Some(acc as u16)
}

/// The character denoting a decimal digit, most useful for 0 through 9.
pub open spec fn digit_char(d: int) -> char {
    if d == 0 {
        '0'
    } else if d == 1 {
        '1'
    } else if d == 2 {
        '2'
    } else if d == 3 {
        '3'
    } else if d == 4 {
        '4'
    } else if d == 5 {
        '5'
    } else if d == 6 {
        '6'
    } else if d == 7 {
        '7'
    } else if d == 8 {
        '8'
    } else {
        '9'
    }
}

/// The decimal numeral for a nonnegative number, without leading zeros
/// (a single zero digit for 0).
pub open spec fn dec_digits(n: nat) -> Seq<char>
    decreases n,
{
    if n < 10 {
        seq![digit_char(n as int)]
    } else {
        dec_digits(n / 10).push(digit_char((n % 10) as int))
    }
}

fn digit_str(d: u16) -> (r: &'static str)
    requires
        d < 10,
    ensures
        r@ =~= seq![digit_char(d as int)],
{
    proof {
        reveal_strlit("0");
        reveal_strlit("1");
        reveal_strlit("2");
        reveal_strlit("3");
        reveal_strlit("4");
        reveal_strlit("5");
        reveal_strlit("6");
        reveal_strlit("7");
        reveal_strlit("8");
        reveal_strlit("9");
    }
    match d {
        0 => "0",
        1 => "1",
        2 => "2",
        3 => "3",
        4 => "4",
        5 => "5",
        6 => "6",
        7 => "7",
        8 => "8",
        _ => "9",
    }
}

/// Writes a number as its decimal numeral.
pub fn u16_to_string(n: u16) -> (r: String)
    ensures
        r@ == dec_digits(n as nat),
    decreases n,
{
    if n < 10 {
        String::from_str(digit_str(n))
    } else {
        let r = u16_to_string(n / 10);
        let r2 = r.concat(digit_str(n % 10));
        proof {
            assert(dec_digits(n as nat) == dec_digits((n / 10) as nat).push(
                digit_char((n % 10) as int)));
            assert(r2@ =~= dec_digits((n / 10) as nat).push(digit_char((n % 10) as int)));
        }
        r2
    }
}

/// The space-separated tokens of a line, reading the line from its end:
/// a space starts no token, a non-space either extends the token in
/// progress or begins a new one.
pub open spec fn spec_tokenize(s: Seq<char>) -> Seq<Seq<char>>
    decreases s.len(),
{
    if s.len() == 0 {
        Seq::empty()
    } else {
        let pre = spec_tokenize(s.drop_last());
        let c = s.last();
        if c == ' ' {
            pre
        } else if s.len() >= 2 && s[s.len() - 2] != ' ' {
            pre.update(pre.len() - 1, pre.last().push(c))
        } else {
            pre.push(seq![c])
        }
    }
}

/// Splits a line on spaces, collapsing runs of spaces so that every token
/// returned is nonempty.
pub fn tokenize(s: &str) -> (r: Vec<String>)
    ensures
        r.deep_view() == spec_tokenize(s@),
{
    let len = s.unicode_len();
    let mut tokens: Vec<String> = Vec::new();
    let mut i: usize = 0;
    while i < len
        invariant
            i <= len,
            len == s@.len(),
            tokens.deep_view() == spec_tokenize(s@.take(i as int)),
            i == 0 || i == len || s@[i as int - 1] == ' ' || s@[i as int] == ' ',
        decreases len - i,
    {
        if s.get_char(i) == ' ' {
            proof {
                assert(s@.take(i + 1).drop_last() =~= s@.take(i as int));
                assert(s@.take(i + 1).last() == ' ');
            }
            i = i + 1;
        } else {
            let ghost start = i as int;
            let mut j: usize = i + 1;
            proof {
                assert(s@.take(i + 1).drop_last() =~= s@.take(i as int));
                assert(s@.take(i + 1).last() == s@[i as int]);
                assert(s@.take(i + 1) =~= s@.take(start).push(s@[start]));
                assert(spec_tokenize(s@.take(i + 1)) == spec_tokenize(s@.take(start)).push(
                    seq![s@[start]]));
                assert(seq![s@[start]] =~= s@.subrange(start, i + 1));
            }
            while j < len && s.get_char(j) != ' '
                invariant
                    0 <= start < i + 1 <= j <= len,
                    len == s@.len(),
                    forall|k: int| start <= k < j ==> s@[k] != ' ',
                    tokens.deep_view() == spec_tokenize(s@.take(start)),
                    spec_tokenize(s@.take(j as int)) == tokens.deep_view().push(
                        s@.subrange(start, j as int)),
                decreases len - j,
            {
                proof {
                    assert(s@.take(j + 1).drop_last() =~= s@.take(j as int));
                    assert(s@.take(j + 1).last() == s@[j as int]);
                    assert(s@.take(j + 1)[j - 1] == s@[j - 1]);
                    assert(s@[j - 1] != ' ');
                    let pre = spec_tokenize(s@.take(j as int));
                    assert(pre.last() == s@.subrange(start, j as int));
                    assert(spec_tokenize(s@.take(j + 1)) == pre.update(pre.len() - 1,
                        pre.last().push(s@[j as int])));
                    assert(s@.subrange(start, j as int).push(s@[j as int]) =~= s@.subrange(
                        start, j + 1));
                    assert(pre.update(pre.len() - 1, pre.last().push(s@[j as int]))
                        =~= tokens.deep_view().push(s@.subrange(start, j + 1)));
                }
                j = j + 1;
            }
            let tok = String::from_str(s.substring_char(i, j));
            tokens.push(tok);
            proof {
                assert(tokens.deep_view() =~= spec_tokenize(s@.take(j as int)));
            }
            i = j;
        }
    }
    proof {
        assert(s@.take(len as int) =~= s@);
    }
    tokens
}

/// How many times `c` occurs in `s`.
pub open spec fn count_occ(s: Seq<char>, c: char) -> int
    decreases s.len(),
{
    if s.len() == 0 {
        0
    } else {
        count_occ(s.drop_last(), c) + (if s.last() == c {
            1int
        } else {
            0int
        })
    }
}

/// The index of the first occurrence of `c` in `s`, or the length of `s`
/// if there is none.
pub open spec fn first_occ(s: Seq<char>, c: char) -> int
    decreases s.len(),
{
    if s.len() == 0 {
        0
    } else if count_occ(s.drop_last(), c) > 0 {
        first_occ(s.drop_last(), c)
    } else if s.last() == c {
        s.len() - 1
    } else {
        s.len() as int
    }
}

/// What `first_occ` names: its result is the position of an occurrence
/// with none before it, or the whole length when the character is absent.
pub proof fn lemma_first_occ_props(s: Seq<char>, c: char)
    ensures
        count_occ(s, c) > 0 ==> 0 <= first_occ(s, c) < s.len() && s[first_occ(s, c)] == c,
        count_occ(s, c) > 0 ==> forall|k: int| 0 <= k < first_occ(s, c) ==> s[k] != c,
        count_occ(s, c) == 0 ==> first_occ(s, c) == s.len() && (forall|k: int|
            0 <= k < s.len() ==> s[k] != c),
        count_occ(s, c) >= 0,
    decreases s.len(),
{
    if s.len() > 0 {
        lemma_first_occ_props(s.drop_last(), c);
        assert(forall|k: int| 0 <= k < s.len() - 1 ==> s[k] == s.drop_last()[k]);
    }
}

/// Counts occurrences of `c` and locates the first one (the length of
/// `s` stands for "none").
pub fn count_and_first(s: &str, c: char) -> (r: (usize, usize))
    ensures
        r.0 as int == count_occ(s@, c),
        r.1 as int == first_occ(s@, c),
{
    let len = s.unicode_len();
    let mut count: usize = 0;
    let mut first: usize = 0;
    let mut i: usize = 0;
    while i < len
        invariant
            i <= len,
            len == s@.len(),
            count as int == count_occ(s@.take(i as int), c),
            first as int == first_occ(s@.take(i as int), c),
            count <= i,
        decreases len - i,
    {
        proof {
            assert(s@.take(i + 1).drop_last() =~= s@.take(i as int));
            assert(s@.take(i + 1).last() == s@[i as int]);
        }
        let ch = s.get_char(i);
        if ch == c {
            if count == 0 {
                first = i;
            }
            count = count + 1;
        } else {
            if count == 0 {
                first = i + 1;
            }
        }
        proof {
            if count_occ(s@.take(i as int), c) == 0 {
                lemma_first_occ_props(s@.take(i as int), c);
            }
        }
        i = i + 1;
    }
    proof {
        assert(s@.take(len as int) =~= s@);
    }
    (count, first)
}

/// Occurrences add up across concatenation.
pub proof fn lemma_count_occ_add(a: Seq<char>, b: Seq<char>, c: char)
    ensures
        count_occ(a + b, c) == count_occ(a, c) + count_occ(b, c),
    decreases b.len(),
{
    if b.len() == 0 {
        assert(a + b =~= a);
    } else {
        lemma_count_occ_add(a, b.drop_last(), c);
        assert((a + b).drop_last() =~= a + b.drop_last());
        assert((a + b).last() == b.last());
    }
}

/// A character that appears nowhere is counted zero times.
pub proof fn lemma_count_occ_absent(s: Seq<char>, c: char)
    requires
        forall|k: int| 0 <= k < s.len() ==> #[trigger] s[k] != c,
    ensures
        count_occ(s, c) == 0,
    decreases s.len(),
{
    if s.len() > 0 {
        assert(forall|k: int|
            0 <= k < s.len() - 1 ==> #[trigger] s.drop_last()[k] == s[k]);
        lemma_count_occ_absent(s.drop_last(), c);
    }
}

/// An occurrence with none before it is the first occurrence, and makes
/// the count positive.
pub proof fn lemma_first_occ_at(s: Seq<char>, c: char, k: int)
    requires
        0 <= k < s.len(),
        s[k] == c,
        forall|j: int| 0 <= j < k ==> #[trigger] s[j] != c,
    ensures
        count_occ(s, c) > 0,
        first_occ(s, c) == k,
    decreases s.len(),
{
    lemma_first_occ_props(s, c);
    if k == s.len() - 1 {
        if count_occ(s.drop_last(), c) > 0 {
            lemma_first_occ_props(s.drop_last(), c);
            assert(s.drop_last()[first_occ(s.drop_last(), c)] == c);
            assert(s[first_occ(s.drop_last(), c)] == c);
        }
    } else {
        assert(forall|j: int|
            0 <= j < s.len() - 1 ==> #[trigger] s.drop_last()[j] == s[j]);
        lemma_first_occ_at(s.drop_last(), c, k);
    }
}

/// The lines of a piece of text, reading it from its end: a newline ends
/// the line in progress, any other character extends it. The result always
/// holds one (possibly empty) line more than the text holds newlines.
pub open spec fn split_lines_raw(s: Seq<char>) -> Seq<Seq<char>>
    decreases s.len(),
{
    if s.len() == 0 {
        seq![Seq::<char>::empty()]
    } else {
        let pre = split_lines_raw(s.drop_last());
        if s.last() == '\n' {
            pre.push(Seq::empty())
        } else {
            pre.update(pre.len() - 1, pre.last().push(s.last()))
        }
    }
}

/// The lines of a piece of text: a final newline terminates the last line
/// rather than opening an empty one, and empty text has no lines.
pub open spec fn spec_lines(s: Seq<char>) -> Seq<Seq<char>> {
    if s.len() == 0 {
        Seq::empty()
    } else if s.last() == '\n' {
        split_lines_raw(s.drop_last())
    } else {
        split_lines_raw(s)
    }
}

/// Raw line splitting always yields at least one line.
pub proof fn lemma_split_raw_nonempty(s: Seq<char>)
    ensures
        split_lines_raw(s).len() >= 1,
    decreases s.len(),
{
    if s.len() > 0 {
        lemma_split_raw_nonempty(s.drop_last());
    }
}

/// Appending newline-free text extends the last line and nothing else.
pub proof fn lemma_split_raw_append(x: Seq<char>, u: Seq<char>)
    requires
        forall|k: int| 0 <= k < u.len() ==> #[trigger] u[k] != '\n',
    ensures
        split_lines_raw(x + u) =~~= split_lines_raw(x).update(
            split_lines_raw(x).len() - 1,
            split_lines_raw(x).last() + u,
        ),
    decreases u.len(),
{
    lemma_split_raw_nonempty(x);
    if u.len() == 0 {
        assert(x + u =~= x);
        assert(split_lines_raw(x).last() + u =~= split_lines_raw(x).last());
        assert(split_lines_raw(x).update(
            split_lines_raw(x).len() - 1,
            split_lines_raw(x).last() + u,
        ) =~~= split_lines_raw(x));
    } else {
        assert(forall|k: int|
            0 <= k < u.len() - 1 ==> #[trigger] u.drop_last()[k] == u[k]);
        lemma_split_raw_append(x, u.drop_last());
        let whole = x + u;
        assert(whole.drop_last() =~= x + u.drop_last());
        assert(whole.last() == u.last());
        assert(whole.last() != '\n');
        let prev = split_lines_raw(x + u.drop_last());
        assert(split_lines_raw(whole) == prev.update(prev.len() - 1, prev.last().push(
            u.last())));
        assert(prev.last() == split_lines_raw(x).last() + u.drop_last());
        assert((split_lines_raw(x).last() + u.drop_last()).push(u.last()) =~= split_lines_raw(
            x).last() + u);
        assert(split_lines_raw(whole) =~~= split_lines_raw(x).update(
            split_lines_raw(x).len() - 1,
            split_lines_raw(x).last() + u,
        ));
    }
}

/// Appending one newline-terminated, newline-free record to terminated
/// text (empty, or ending in a newline) appends exactly one line.
pub proof fn lemma_lines_append_record(a: Seq<char>, u: Seq<char>)
    requires
        a.len() == 0 || a.last() == '\n',
        forall|k: int| 0 <= k < u.len() ==> #[trigger] u[k] != '\n',
    ensures
        spec_lines(a + u + "\n"@) =~~= spec_lines(a).push(u),
{
    reveal_strlit("\n");
    assert("\n"@.len() == 1);
    assert("\n"@[0] == '\n');
    let b = a + u;
    let full = a + u + "\n"@;
    assert(full =~= b + "\n"@);
    assert(full.len() == b.len() + 1);
    assert(full.drop_last() =~= b);
    assert(full.last() == '\n');
    assert(spec_lines(full) == split_lines_raw(b));
    lemma_split_raw_append(a, u);
    if a.len() == 0 {
        assert(a =~= Seq::<char>::empty());
        assert(split_lines_raw(a) == seq![Seq::<char>::empty()]);
        assert(b =~= u);
        assert(split_lines_raw(a).last() + u =~= u);
        assert(split_lines_raw(b) =~~= seq![Seq::<char>::empty()].update(0, u));
        assert(seq![Seq::<char>::empty()].update(0, u) =~~= Seq::<Seq<char>>::empty().push(u));
        assert(spec_lines(a) == Seq::<Seq<char>>::empty());
    } else {
        let pre = split_lines_raw(a.drop_last());
        lemma_split_raw_nonempty(a.drop_last());
        assert(split_lines_raw(a) == pre.push(Seq::empty()));
        assert(spec_lines(a) == pre);
        assert(split_lines_raw(a).last() + u =~= u);
        assert(split_lines_raw(b) =~~= pre.push(Seq::empty()).update(pre.len() as int, u));
        assert(pre.push(Seq::empty()).update(pre.len() as int, u) =~~= pre.push(u));
    }
}

/// Splits text into lines, treating a newline as a line terminator.
pub fn split_lines(s: &str) -> (r: Vec<String>)
    ensures
        r.deep_view() == spec_lines(s@),
{
    let len = s.unicode_len();
    let mut done: Vec<String> = Vec::new();
    let mut st: usize = 0;
    let mut i: usize = 0;
    proof {
        assert(s@.take(0) =~= Seq::<char>::empty());
        assert(s@.subrange(0, 0) =~= Seq::<char>::empty());
        assert(done.deep_view().push(s@.subrange(0, 0)) =~= seq![Seq::<char>::empty()]);
    }
    while i < len
        invariant
            st <= i <= len,
            len == s@.len(),
            st == 0 || s@[st as int - 1] == '\n',
            forall|k: int| st <= k < i ==> s@[k] != '\n',
            split_lines_raw(s@.take(i as int)) == done.deep_view().push(
                s@.subrange(st as int, i as int)),
        decreases len - i,
    {
        let ghost pre_lines = split_lines_raw(s@.take(i as int));
        let ghost pre_done = done.deep_view();
        proof {
            assert(s@.take(i + 1).drop_last() =~= s@.take(i as int));
            assert(s@.take(i + 1).last() == s@[i as int]);
            assert(pre_lines.len() == pre_done.len() + 1);
        }
        if s.get_char(i) == '\n' {
            let line = String::from_str(s.substring_char(st, i));
            done.push(line);
            proof {
                assert(done.deep_view() =~= pre_done.push(s@.subrange(st as int, i as int)));
                assert(split_lines_raw(s@.take(i + 1)) == pre_lines.push(Seq::empty()));
                assert(s@.subrange(i + 1, i + 1) =~= Seq::<char>::empty());
                assert(split_lines_raw(s@.take(i + 1)) =~= done.deep_view().push(
                    s@.subrange(i + 1, i + 1)));
            }
            st = i + 1;
        } else {
            proof {
                let ext = pre_lines.update(pre_lines.len() - 1, pre_lines.last().push(
                    s@[i as int]));
                assert(split_lines_raw(s@.take(i + 1)) == ext);
                assert(s@.subrange(st as int, i as int).push(s@[i as int]) =~= s@.subrange(
                    st as int, i + 1));
                assert(ext =~= pre_done.push(s@.subrange(st as int, i + 1)));
            }
        }
        i = i + 1;
    }
    proof {
        assert(s@.take(len as int) =~= s@);
    }
    if len == 0 {
        done
    } else if st == len {
        proof {
            assert(s@.last() == '\n');
            let pre = split_lines_raw(s@.drop_last());
            assert(s@.drop_last() =~= s@.take(len - 1));
            assert(split_lines_raw(s@) == pre.push(Seq::empty()));
            assert(s@.subrange(st as int, len as int) =~= Seq::<char>::empty());
            assert(pre.push(Seq::empty()) == done.deep_view().push(Seq::empty()));
            assert(pre =~= done.deep_view()) by {
                assert(pre.push(Seq::empty()).drop_last() =~= pre);
                assert(done.deep_view().push(Seq::empty()).drop_last() =~= done.deep_view());
            }
        }
        done
    } else {
        let last_line = String::from_str(s.substring_char(st, len));
        let mut done2 = done;
        done2.push(last_line);
        proof {
            assert(s@.last() != '\n');
            assert(done2.deep_view() =~= split_lines_raw(s@));
        }
        done2
    }
}

} // verus!
