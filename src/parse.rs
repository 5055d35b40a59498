use vstd::prelude::*;

verus! {

/// ASCII whitespace: space, tab, line feed, form feed, carriage return.
pub open spec fn is_space(c: char) -> bool {
    c == ' ' || c == '\t' || c == '\n' || c == '\x0C' || c == '\r'
}

pub open spec fn is_digit(c: char) -> bool {
    '0' as u32 <= c as u32 <= '9' as u32
}

/// The number that a string of decimal digits spells.
pub open spec fn digits_value(d: Seq<char>) -> nat
    decreases d.len(),
{
    if d.len() == 0 {
        0
    } else {
        digits_value(d.drop_last()) * 10 + (d.last() as u32 - '0' as u32) as nat
    }
}

/// `w` without its leading `+`, if it has one.
pub open spec fn unsigned_part(w: Seq<char>) -> Seq<char> {
    if w.len() > 0 && w[0] == '+' {
        w.drop_first()
    } else {
        w
    }
}

pub open spec fn all_digits(d: Seq<char>) -> bool {
    forall|k: int| 0 <= k < d.len() ==> is_digit(#[trigger] d[k])
}

/// The `u32` that `w` spells in decimal, with an optional leading `+`;
/// `None` where `w` is no such number or does not fit.
pub open spec fn number_token(w: Seq<char>) -> Option<u32> {
    let d = unsigned_part(w);
    if d.len() > 0 && all_digits(d) && digits_value(d) <= u32::MAX {
        Some(digits_value(d) as u32)
    } else {
        None
    }
}

/// Reads `s` as a decimal `u32`: digits with an optional leading `+`, and
/// nothing else.
pub fn parse_number(s: &str) -> (r: Option<u32>)
    ensures
        r == number_token(s@),
{
    let n = s.unicode_len();
    let mut i: usize = 0;
    if n > 0 && s.get_char(0) == '+' {
        i = 1;
    }
    let ghost d = unsigned_part(s@);
    assert(d =~= s@.subrange(i as int, n as int));
    if i >= n {
        return None;
    }
    let start = i;
    let mut value: u64 = 0;
    let mut too_large = false;
    while i < n
        invariant
            start <= i <= n,
            n == s@.len(),
            d == s@.subrange(start as int, n as int),
            d == unsigned_part(s@),
            forall|k: int| start <= k < i ==> is_digit(#[trigger] s@[k]),
            too_large ==> digits_value(s@.subrange(start as int, i as int)) > u32::MAX,
            !too_large ==> value == digits_value(s@.subrange(start as int, i as int)),
            !too_large ==> value <= u32::MAX,
        decreases n - i,
    {
        let c = s.get_char(i);
        if !('0' <= c && c <= '9') {
            assert(!is_digit(d[i - start]));
            return None;
        }
        let ghost prefix = s@.subrange(start as int, i + 1);
        assert(prefix.drop_last() =~= s@.subrange(start as int, i as int));
        if !too_large {
            value = value * 10 + (c as u32 - '0' as u32) as u64;
            if value > u32::MAX as u64 {
                too_large = true;
            }
        } else {
            assert(digits_value(prefix) >= digits_value(prefix.drop_last())) by (nonlinear_arith)
                requires
                    digits_value(prefix) == digits_value(prefix.drop_last()) * 10 + (prefix.last() as u32
                        - '0' as u32) as nat,
            ;
        }
        i = i + 1;
    }
    assert(s@.subrange(start as int, n as int) =~= d);
    assert forall|k: int| 0 <= k < d.len() implies is_digit(#[trigger] d[k]) by {
        assert(is_digit(s@[k + start]));
    }
    if too_large {
        None
    } else {
        Some(value as u32)
    }
}

/// The words of `s`: its longest runs of characters that are not ASCII
/// whitespace, in order.
pub open spec fn words(s: Seq<char>) -> Seq<Seq<char>>
    decreases s.len(),
{
    if s.len() == 0 {
        seq![]
    } else {
        let w = words(s.drop_last());
        if is_space(s.last()) {
            w
        } else if s.len() > 1 && !is_space(s[s.len() - 2]) {
            w.update(w.len() - 1, w.last().push(s.last()))
        } else {
            w.push(seq![s.last()])
        }
    }
}

/// The numbers that the words of `s` spell, or `None` where one of them is
/// not a number.
pub open spec fn numbers(s: Seq<char>) -> Option<Seq<u32>> {
    let w = words(s);
    if forall|j: int| 0 <= j < w.len() ==> (#[trigger] number_token(w[j])) is Some {
        Some(Seq::new(w.len(), |j: int| number_token(w[j])->Some_0))
    } else {
        None
    }
}

/// Reads the whitespace-separated decimal numbers of `s`.
pub fn parse_numbers(s: &str) -> (r: Option<Vec<u32>>)
    ensures
        match r {
            Some(v) => numbers(s@) == Some(v@),
            None => numbers(s@) is None,
        },
{
    let n = s.unicode_len();
    let mut values: Vec<u32> = Vec::new();
    let mut valid = true;
    let mut in_word = false;
    let mut start: usize = 0;
    let mut i: usize = 0;
    let ghost mut done: Seq<Seq<char>> = seq![];
    while i < n
        invariant
            n == s@.len(),
            start <= i <= n,
            in_word ==> start < i && !is_space(s@[i - 1]) && words(s@.subrange(0, i as int)) == done.push(
                s@.subrange(start as int, i as int),
            ),
            !in_word ==> words(s@.subrange(0, i as int)) == done && (i == 0 || is_space(s@[i - 1])),
            valid <==> forall|j: int| 0 <= j < done.len() ==> (#[trigger] number_token(done[j])) is Some,
            valid ==> values@.len() == done.len(),
            valid ==> forall|j: int| 0 <= j < done.len() ==> number_token(done[j]) == Some(#[trigger] values@[j]),
        decreases n - i,
    {
        let c = s.get_char(i);
        let ghost prefix = s@.subrange(0, i + 1);
        assert(prefix.drop_last() =~= s@.subrange(0, i as int));
        if c == ' ' || c == '\t' || c == '\n' || c == '\x0C' || c == '\r' {
            if in_word {
                let ghost before = done;
                let valid_before = valid;
                let word = s.substring_char(start, i);
                match parse_number(word) {
                    Some(v) => {
                        if valid {
                            values.push(v);
                        }
                    },
                    None => {
                        valid = false;
                    },
                }
                proof {
                    done = done.push(word@);
                    assert forall|j: int| 0 <= j < before.len() implies done[j] == before[j] by {}
                    if valid_before && !valid {
                        assert(number_token(done[before.len() as int]) is None);
                    }
                }
                in_word = false;
            }
        } else {
            proof {
                if in_word {
                    assert(s@.subrange(start as int, i + 1) =~= s@.subrange(start as int, i as int).push(c));
                    assert(words(prefix) =~= done.push(s@.subrange(start as int, i + 1)));
                } else {
                    assert(s@.subrange(i as int, i + 1) =~= seq![c]);
                }
            }
            if !in_word {
                start = i;
                in_word = true;
            }
        }
        i = i + 1;
    }
    assert(s@.subrange(0, n as int) =~= s@);
    if in_word {
        let ghost before = done;
        let valid_before = valid;
        let word = s.substring_char(start, n);
        match parse_number(word) {
            Some(v) => {
                if valid {
                    values.push(v);
                }
            },
            None => {
                valid = false;
            },
        }
        proof {
            done = done.push(word@);
            assert forall|j: int| 0 <= j < before.len() implies done[j] == before[j] by {}
            if valid_before && !valid {
                assert(number_token(done[before.len() as int]) is None);
            }
        }
    }
    if valid {
        assert(values@ =~= Seq::new(done.len(), |j: int| number_token(done[j])->Some_0));
        Some(values)
    } else {
        assert(!(forall|j: int| 0 <= j < done.len() ==> (#[trigger] number_token(done[j])) is Some));
        None
    }
}

/// The three numbers of a header line (width, height, run length), or
/// `None` where the line does not hold exactly three numbers.
pub open spec fn header(s: Seq<char>) -> Option<(u32, u32, u32)> {
    match numbers(s) {
        Some(v) => if v.len() == 3 {
            Some((v[0], v[1], v[2]))
        } else {
            None
        },
        None => None,
    }
}

/// The zero-based column that a move line names: the line is a column
/// number counted from 1.
pub open spec fn move_column(line: Seq<char>) -> Option<u32> {
    match number_token(line) {
        Some(n) => if n >= 1 {
            Some((n - 1) as u32)
        } else {
            None
        },
        None => None,
    }
}

/// Reads one move per line, each a column number counted from 1, and gives
/// the zero-based columns; `None` where a line names no column.
pub fn moves_from_lines(lines: &Vec<String>) -> (r: Option<Vec<u32>>)
    ensures
        match r {
            Some(v) => v@.len() == lines@.len() && forall|j: int|
                0 <= j < lines@.len() ==> move_column(lines@[j]@) == Some(#[trigger] v@[j]),
            None => exists|j: int| 0 <= j < lines@.len() && (#[trigger] move_column(lines@[j]@)) is None,
        },
{
    let mut moves: Vec<u32> = Vec::new();
    let mut i: usize = 0;
    while i < lines.len()
        invariant
            i <= lines@.len(),
            moves@.len() == i,
            forall|j: int| 0 <= j < i ==> move_column(lines@[j]@) == Some(#[trigger] moves@[j]),
        decreases lines@.len() - i,
    {
        match parse_number(lines[i].as_str()) {
            Some(n) => {
                if n == 0 {
                    assert(move_column(lines@[i as int]@) is None);
                    return None;
                }
                moves.push(n - 1);
            },
            None => {
                assert(move_column(lines@[i as int]@) is None);
                return None;
            },
        }
        i = i + 1;
    }
    Some(moves)
}

} // verus!
